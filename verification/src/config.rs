//! rmreader configuration: the settings, their defaults, and validation.
use vstd::prelude::*;

use crate::device::{get_device, known_device};
use crate::text::{ends_with, is_blank, str_eq, str_ends_with, str_is_blank};

verus! {

#[derive(Debug, Clone, PartialEq)]
pub struct ReadwiseConfig {
    pub token: String,
}

#[derive(Debug, Clone, PartialEq)]
pub struct LibraryConfig {
    pub locations: Vec<String>,
    pub max_items: u32,
}

#[derive(Debug, Clone, PartialEq)]
pub struct FeedConfig {
    pub enabled: bool,
    pub max_items: u32,
}

#[derive(Debug, Clone, PartialEq)]
pub struct ImagesConfig {
    pub enabled: bool,
    /// Per-request network timeout in seconds.
    pub timeout_secs: u64,
    /// Maximum number of concurrent image fetches.
    pub concurrency: usize,
}

#[derive(Debug, Clone, PartialEq)]
pub struct ContentConfig {
    /// Articles larger than this many bytes are truncated.
    pub max_article_bytes: usize,
}

#[derive(Debug, Clone, PartialEq)]
pub struct DeployConfig {
    /// `none` or `rmapi`.
    pub backend: String,
    pub library_folder: String,
    pub feed_folder: String,
}

#[derive(Debug, Clone, PartialEq)]
pub struct CacheConfig {
    pub enabled: bool,
    /// Cache directory; `None` resolves at run time to `$XDG_CACHE_HOME/rmreader`
    /// (else `~/.cache/rmreader`).
    pub dir: Option<String>,
    pub expiry_days: u64,
}

#[derive(Debug, Clone, PartialEq)]
pub struct Config {
    pub device: String,
    pub output_dir: String,
    pub theme: String,
    pub readwise: ReadwiseConfig,
    pub library: LibraryConfig,
    pub feed: FeedConfig,
    pub images: ImagesConfig,
    pub content: ContentConfig,
    pub deploy: DeployConfig,
    pub cache: CacheConfig,
}

// ---------------------------------------------------------------------------
// Defaults
// ---------------------------------------------------------------------------

pub open spec fn default_locations_spec() -> Seq<Seq<char>> {
    seq!["new"@, "later"@, "shortlist"@]
}

pub fn default_library_locations() -> (r: Vec<String>)
    ensures
        r@.map_values(|s: String| s@) == default_locations_spec(),
{
    let mut v: Vec<String> = Vec::new();
    v.push("new".to_owned());
    v.push("later".to_owned());
    v.push("shortlist".to_owned());
    assert(v@.map_values(|s: String| s@) =~= default_locations_spec());
    v
}

pub fn default_max_items() -> (r: u32)
    ensures
        r == 100,
{
    100
}

pub fn default_device() -> (r: String)
    ensures
        r@ == "paper-pro-move"@,
{
    "paper-pro-move".to_owned()
}

pub fn default_output_dir() -> (r: String)
    ensures
        r@ == "."@,
{
    ".".to_owned()
}

pub fn default_theme() -> (r: String)
    ensures
        r@ == "reader"@,
{
    "reader".to_owned()
}

pub fn default_reader_folder() -> (r: String)
    ensures
        r@ == "/Readwise"@,
{
    "/Readwise".to_owned()
}

pub fn default_true() -> (r: bool)
    ensures
        r,
{
    true
}

pub fn default_timeout_secs() -> (r: u64)
    ensures
        r == 8,
{
    8
}

pub fn default_concurrency() -> (r: usize)
    ensures
        r == 12,
{
    12
}

pub fn default_max_article_bytes() -> (r: usize)
    ensures
        r == 80_000,
{
    80_000
}

pub fn default_backend() -> (r: String)
    ensures
        r@ == "none"@,
{
    "none".to_owned()
}

pub fn default_expiry_days() -> (r: u64)
    ensures
        r == 7,
{
    7
}

impl Default for LibraryConfig {
    fn default() -> (r: Self)
        ensures
            r.locations@.map_values(|s: String| s@) == default_locations_spec(),
            r.max_items == 100,
    {
        LibraryConfig { locations: default_library_locations(), max_items: default_max_items() }
    }
}

impl Default for FeedConfig {
    fn default() -> (r: Self)
        ensures
            r.enabled,
            r.max_items == 100,
    {
        FeedConfig { enabled: true, max_items: default_max_items() }
    }
}

impl Default for ImagesConfig {
    fn default() -> (r: Self)
        ensures
            r.enabled,
            r.timeout_secs == 8,
            r.concurrency == 12,
    {
        ImagesConfig {
            enabled: true,
            timeout_secs: default_timeout_secs(),
            concurrency: default_concurrency(),
        }
    }
}

impl Default for ContentConfig {
    fn default() -> (r: Self)
        ensures
            r.max_article_bytes == 80_000,
    {
        ContentConfig { max_article_bytes: default_max_article_bytes() }
    }
}

impl Default for DeployConfig {
    fn default() -> (r: Self)
        ensures
            r.backend@ == "none"@,
            r.library_folder@ == "/Readwise"@,
            r.feed_folder@ == "/Readwise"@,
    {
        DeployConfig {
            backend: "none".to_owned(),
            library_folder: default_reader_folder(),
            feed_folder: default_reader_folder(),
        }
    }
}

impl Default for CacheConfig {
    fn default() -> (r: Self)
        ensures
            r.enabled,
            r.dir is None,
            r.expiry_days == 7,
    {
        CacheConfig { enabled: true, dir: None, expiry_days: 7 }
    }
}

// ---------------------------------------------------------------------------
// Validation
// ---------------------------------------------------------------------------

/// Why a configuration is refused.
#[derive(Debug, Clone, PartialEq)]
pub enum ConfigError {
    UnknownDevice { device: String },
    /// Neither `reader` nor a path to a `.toml` palette.
    UnknownTheme { theme: String },
    MissingToken,
    NoLocations,
    BadLocation { location: String },
    MissingLibraryFolder,
    MissingFeedFolder,
    BadBackend { backend: String },
}

pub open spec fn valid_location(l: Seq<char>) -> bool {
    l == "new"@ || l == "later"@ || l == "shortlist"@ || l == "archive"@
}

pub fn is_valid_location(l: &str) -> (r: bool)
    ensures
        r == valid_location(l@),
{
    str_eq(l, "new") || str_eq(l, "later") || str_eq(l, "shortlist") || str_eq(l, "archive")
}

pub open spec fn known_theme(t: Seq<char>) -> bool {
    t == "reader"@ || ends_with(t, ".toml"@)
}

/// The index of the first location that is not valid.
pub open spec fn first_bad_location(ls: Seq<String>, i: int) -> bool {
    0 <= i < ls.len() && !valid_location(ls[i]@) && forall|k: int|
        0 <= k < i ==> valid_location(#[trigger] ls[k]@)
}

/// What `validate` answers, in the order the checks are made: device, theme,
/// token, locations, deploy backend and its folders.
pub open spec fn validation(c: Config) -> Result<(), ConfigError> {
    let ls = c.library.locations@;
    if !known_device(c.device@) {
        Err(ConfigError::UnknownDevice { device: c.device })
    } else if !known_theme(c.theme@) {
        Err(ConfigError::UnknownTheme { theme: c.theme })
    } else if is_blank(c.readwise.token@) {
        Err(ConfigError::MissingToken)
    } else if ls.len() == 0 {
        Err(ConfigError::NoLocations)
    } else if exists|i: int| first_bad_location(ls, i) {
        Err(ConfigError::BadLocation { location: ls[choose|i: int| first_bad_location(ls, i)] })
    } else if c.deploy.backend@ == "none"@ {
        Ok(())
    } else if c.deploy.backend@ == "rmapi"@ {
        if is_blank(c.deploy.library_folder@) {
            Err(ConfigError::MissingLibraryFolder)
        } else if c.feed.enabled && is_blank(c.deploy.feed_folder@) {
            Err(ConfigError::MissingFeedFolder)
        } else {
            Ok(())
        }
    } else {
        Err(ConfigError::BadBackend { backend: c.deploy.backend })
    }
}

pub open spec fn same_error(a: ConfigError, b: ConfigError) -> bool {
    match (a, b) {
        (ConfigError::UnknownDevice { device: x }, ConfigError::UnknownDevice { device: y }) => x@
            == y@,
        (ConfigError::UnknownTheme { theme: x }, ConfigError::UnknownTheme { theme: y }) => x@
            == y@,
        (ConfigError::BadLocation { location: x }, ConfigError::BadLocation { location: y }) => x@
            == y@,
        (ConfigError::BadBackend { backend: x }, ConfigError::BadBackend { backend: y }) => x@
            == y@,
        _ => a == b,
    }
}

pub open spec fn same_result(a: Result<(), ConfigError>, b: Result<(), ConfigError>) -> bool {
    match (a, b) {
        (Ok(()), Ok(())) => true,
        (Err(x), Err(y)) => same_error(x, y),
        _ => false,
    }
}

impl Config {
    /// Check the configuration. A theme path is only checked for its `.toml`
    /// form here; reading the file is left to whoever loads the palette.
    pub fn validate(&self) -> (r: Result<(), ConfigError>)
        ensures
            same_result(r, validation(*self)),
    {
        if get_device(self.device.as_str()).is_err() {
            return Err(ConfigError::UnknownDevice { device: self.device.clone() });
        }
        if !(str_eq(self.theme.as_str(), "reader") || str_ends_with(self.theme.as_str(), ".toml")) {
            return Err(ConfigError::UnknownTheme { theme: self.theme.clone() });
        }
        if str_is_blank(self.readwise.token.as_str()) {
            return Err(ConfigError::MissingToken);
        }
        let ls = &self.library.locations;
        if ls.len() == 0 {
            return Err(ConfigError::NoLocations);
        }
        let mut i: usize = 0;
        while i < ls.len()
            invariant
                i <= ls.len(),
                ls@ == self.library.locations@,
                known_device(self.device@),
                known_theme(self.theme@),
                !is_blank(self.readwise.token@),
                ls@.len() > 0,
                forall|k: int| 0 <= k < i ==> valid_location(#[trigger] ls@[k]@),
            decreases ls.len() - i,
        {
            if !is_valid_location(ls[i].as_str()) {
                proof {
                    assert(first_bad_location(ls@, i as int));
                    let j = choose|j: int| first_bad_location(ls@, j);
                    if j < i {
                        assert(valid_location(ls@[j]@));
                    } else if j > i {
                        assert(valid_location(ls@[i as int]@));
                    }
                    assert(j == i);
                }
                let bad = ls[i].clone();
                assert(bad@ == ls@[i as int]@);
                return Err(ConfigError::BadLocation { location: bad });
            }
            i = i + 1;
        }
        assert(!exists|j: int| first_bad_location(ls@, j));
        proof {
            reveal_strlit("none");
            reveal_strlit("rmapi");
        }
        if str_eq(self.deploy.backend.as_str(), "none") {
            Ok(())
        } else if str_eq(self.deploy.backend.as_str(), "rmapi") {
            if str_is_blank(self.deploy.library_folder.as_str()) {
                Err(ConfigError::MissingLibraryFolder)
            } else if self.feed.enabled && str_is_blank(self.deploy.feed_folder.as_str()) {
                Err(ConfigError::MissingFeedFolder)
            } else {
                Ok(())
            }
        } else {
            Err(ConfigError::BadBackend { backend: self.deploy.backend.clone() })
        }
    }
}

} // verus!
