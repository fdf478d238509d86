use rmreader::wizard::{assemble, join, Answers};

#[test]
fn assemble_builds_valid_config() {
    let (cfg, out_dir, cfg_path) = assemble(Answers {
        output_dir: "/tmp/reader".into(),
        device: "paper-pro-move".into(),
        token: "tok".into(),
        library_locations: vec!["new".into(), "later".into(), "shortlist".into()],
        library_max: 100,
        feed_enabled: true,
        feed_max: 100,
        images_enabled: true,
        deploy_backend: "rmapi".into(),
        library_folder: "/Reader".into(),
        feed_folder: "/Reader".into(),
    });
    assert!(cfg.validate().is_ok());
    assert_eq!(out_dir.as_str(), "/tmp/reader");
    assert_eq!(cfg_path.as_str(), "/tmp/reader/rmreader.toml");
}

#[test]
fn join_adds_one_separator() {
    assert_eq!(join("/a/", "b"), "/a/b");
    assert_eq!(join("", "b"), "b");
    assert_eq!(join(".", "rmreader.toml"), "./rmreader.toml");
}
