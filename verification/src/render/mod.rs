//! Rendering of a collection: the Typst document source, HTML-to-Typst body
//! conversion, page ranges, and the stylesheet of the HTML renderer.
pub mod css;
pub mod html2typst;
pub mod regions;
pub mod typst_doc;
