use rmreader::config::{
    CacheConfig, Config, ConfigError, ContentConfig, DeployConfig, FeedConfig, ImagesConfig,
    LibraryConfig, ReadwiseConfig,
};

/// The configuration of the sample TOML file used by these tests.
fn valid() -> Config {
    Config {
        device: "paper-pro-move".into(),
        output_dir: ".".into(),
        theme: "reader".into(),
        readwise: ReadwiseConfig { token: "abc123".into() },
        library: LibraryConfig {
            locations: vec!["new".into(), "later".into(), "shortlist".into()],
            max_items: 100,
        },
        feed: FeedConfig { enabled: true, max_items: 100 },
        images: ImagesConfig { enabled: true, ..ImagesConfig::default() },
        content: ContentConfig::default(),
        deploy: DeployConfig {
            backend: "rmapi".into(),
            library_folder: "/Reader".into(),
            feed_folder: "/Reader".into(),
        },
        cache: CacheConfig::default(),
    }
}

#[test]
fn parses_and_validates() {
    let c = valid();
    assert_eq!(c.device, "paper-pro-move");
    assert_eq!(c.library.locations, vec!["new", "later", "shortlist"]);
    assert_eq!(c.library.max_items, 100);
    assert!(c.validate().is_ok());
}

#[test]
fn rejects_empty_token() {
    let mut c = valid();
    c.readwise.token = String::new();
    assert!(c.validate().is_err());
}

#[test]
fn rejects_bad_location() {
    let mut c = valid();
    c.library.locations = vec!["bogus".into()];
    assert!(c.validate().is_err());
}

#[test]
fn rejects_rmapi_without_folder() {
    let mut c = valid();
    c.deploy.library_folder = String::new();
    assert!(c.validate().is_err());
}

#[test]
fn config_struct_defaults_match_serde_defaults() {
    let images = ImagesConfig::default();
    assert!(images.enabled);
    assert_eq!(images.timeout_secs, 8);
    assert_eq!(images.concurrency, 12);

    let content = ContentConfig::default();
    assert_eq!(content.max_article_bytes, 80_000);
}

#[test]
fn each_error_names_what_is_wrong() {
    let mut c = valid();
    c.device = "kindle".into();
    assert_eq!(c.validate(), Err(ConfigError::UnknownDevice { device: "kindle".into() }));
    let mut c = valid();
    c.theme = "dark".into();
    assert_eq!(c.validate(), Err(ConfigError::UnknownTheme { theme: "dark".into() }));
    let mut c = valid();
    c.theme = "themes/dark.toml".into();
    assert_eq!(c.validate(), Ok(()));
    let mut c = valid();
    c.readwise.token = "  \n".into();
    assert_eq!(c.validate(), Err(ConfigError::MissingToken));
    let mut c = valid();
    c.library.locations = vec![];
    assert_eq!(c.validate(), Err(ConfigError::NoLocations));
    let mut c = valid();
    c.library.locations = vec!["new".into(), "x".into(), "y".into()];
    assert_eq!(c.validate(), Err(ConfigError::BadLocation { location: "x".into() }));
    let mut c = valid();
    c.deploy.feed_folder = " ".into();
    assert_eq!(c.validate(), Err(ConfigError::MissingFeedFolder));
    c.feed.enabled = false;
    assert_eq!(c.validate(), Ok(()));
    let mut c = valid();
    c.deploy.backend = "ftp".into();
    assert_eq!(c.validate(), Err(ConfigError::BadBackend { backend: "ftp".into() }));
    let mut c = valid();
    c.deploy.backend = "none".into();
    c.deploy.library_folder = String::new();
    assert_eq!(c.validate(), Ok(()));
}

#[test]
fn remaining_defaults() {
    let l = LibraryConfig::default();
    assert_eq!(l.locations, vec!["new", "later", "shortlist"]);
    assert_eq!(l.max_items, 100);
    let f = FeedConfig::default();
    assert!(f.enabled && f.max_items == 100);
    let d = DeployConfig::default();
    assert_eq!((d.backend.as_str(), d.library_folder.as_str(), d.feed_folder.as_str()), ("none", "/Readwise", "/Readwise"));
    let c = CacheConfig::default();
    assert!(c.enabled && c.dir.is_none() && c.expiry_days == 7);
}

#[test]
fn feed_is_not_a_library_location() {
    let mut c = valid();
    c.library.locations = vec!["new".into(), "feed".into()];
    assert_eq!(c.validate(), Err(ConfigError::BadLocation { location: "feed".into() }));
    c.library.locations = vec!["new".into(), "later".into(), "shortlist".into(), "archive".into()];
    assert_eq!(c.validate(), Ok(()));
}
