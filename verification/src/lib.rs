//! rmreader: Readwise Reader documents to reMarkable reading PDFs.
pub mod text;
pub mod assemble;
pub mod readwise;
pub mod manifest;
pub mod postprocess;
pub mod readback;
pub mod theme;
pub mod wizard;
pub mod render;
pub mod cache;
pub mod config;
pub mod content;
pub mod deploy;
pub mod device;
pub mod generate;
