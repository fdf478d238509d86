use rmreader::config::Config;
use rmreader::deploy::rmapi::{
    bundle_names, default_conf_path, file_stem, guard_start, guard_step, is_blank_conf,
    is_explicit_bin, GuardAction, GuardEvent, GuardState, ProcessRmapi, RmapiDeployer, RmapiRunner,
};
use rmreader::deploy::{get_deployer, local::LocalDeployer, Backend, DeployError, Deployer};
use std::cell::RefCell;
use std::path::PathBuf;
use std::rc::Rc;

// ---------------------------------------------------------------------------
// SharedRunner: basic fake that records all `run` calls and returns Ok(()).
// `try_run_in` records args and returns `get_succeeds`.
// ---------------------------------------------------------------------------

#[derive(Debug, Default)]
struct SharedRunner {
    calls: Rc<RefCell<Vec<Vec<String>>>>,
    /// Returned by `try_run_in` to simulate found / not-found.
    get_succeeds: bool,
}

impl RmapiRunner for SharedRunner {
    fn run(&self, args: &[&str]) -> Result<(), DeployError> {
        self.calls
            .borrow_mut()
            .push(args.iter().map(|s| s.to_string()).collect());
        Ok(())
    }

    fn try_run_in(&self, _dir: &str, args: &[&str]) -> Result<bool, DeployError> {
        self.calls
            .borrow_mut()
            .push(args.iter().map(|s| s.to_string()).collect());
        Ok(self.get_succeeds)
    }

    fn scratch_dir(&self) -> Result<String, DeployError> {
        Ok("/tmp/rmreader-scratch".into())
    }

    fn collect(&self, _dir: &str, _file: &str, _dest: &str) -> Result<Option<String>, DeployError> {
        Ok(None)
    }
}

// ---------------------------------------------------------------------------
// WritingRunner: fake whose `try_run_in` "downloads" `{name}.rmdoc` into its
// scratch dir (kept in memory), and whose `collect` hands back the stable
// path of a file it holds.
// ---------------------------------------------------------------------------

#[derive(Debug)]
struct WritingRunner {
    calls: Rc<RefCell<Vec<Vec<String>>>>,
    files: RefCell<Vec<String>>,
}

impl RmapiRunner for WritingRunner {
    fn run(&self, args: &[&str]) -> Result<(), DeployError> {
        self.calls
            .borrow_mut()
            .push(args.iter().map(|s| s.to_string()).collect());
        Ok(())
    }

    fn try_run_in(&self, dir: &str, args: &[&str]) -> Result<bool, DeployError> {
        self.calls
            .borrow_mut()
            .push(args.iter().map(|s| s.to_string()).collect());
        // Derive the document name from the last arg (e.g. "/RMDev/Reader/Library").
        if let Some(remote) = args.last() {
            let name = remote.split('/').next_back().unwrap_or("doc");
            self.files.borrow_mut().push(format!("{dir}/{name}.rmdoc"));
        }
        Ok(true)
    }

    fn scratch_dir(&self) -> Result<String, DeployError> {
        Ok("/tmp/rmreader-scratch".into())
    }

    fn collect(&self, dir: &str, file: &str, dest: &str) -> Result<Option<String>, DeployError> {
        let from = format!("{dir}/{file}");
        if !self.files.borrow().contains(&from) {
            return Ok(None);
        }
        Ok(Some(format!("/tmp/{dest}")))
    }
}

#[test]
fn deploy_then_refresh_sequences() {
    let calls = Rc::new(RefCell::new(Vec::new()));
    let d = RmapiDeployer::new(SharedRunner {
        calls: calls.clone(),
        get_succeeds: true,
    });
    let targets = vec![
        ("/o/Library.pdf".to_string(), "/Reader".to_string()),
        ("/o/Feed.pdf".to_string(), "/Feeds".to_string()),
    ];
    d.deploy(&targets).unwrap();
    d.refresh(&targets).unwrap();
    let c = calls.borrow();
    assert_eq!(c[0], vec!["-ni", "mkdir", "/Reader"]);
    assert_eq!(c[1], vec!["-ni", "put", "/o/Library.pdf", "/Reader"]);
    assert_eq!(c[2], vec!["-ni", "mkdir", "/Feeds"]);
    assert_eq!(c[3], vec!["-ni", "put", "/o/Feed.pdf", "/Feeds"]);
    assert_eq!(
        c[4],
        vec!["-ni", "put", "--content-only", "/o/Library.pdf", "/Reader"]
    );
    assert_eq!(
        c[5],
        vec!["-ni", "put", "--content-only", "/o/Feed.pdf", "/Feeds"]
    );
}

#[test]
fn replace_removes_then_puts() {
    let calls = Rc::new(RefCell::new(Vec::new()));
    let d = RmapiDeployer::new(SharedRunner {
        calls: calls.clone(),
        get_succeeds: true,
    });
    d.replace("/o/Library.pdf", "/RMDev/Reader").unwrap();
    let c = calls.borrow();
    assert_eq!(c[0], vec!["-ni", "rm", "/RMDev/Reader/Library"]);
    assert_eq!(c[1], vec!["-ni", "put", "/o/Library.pdf", "/RMDev/Reader"]);
}

#[test]
fn fetch_missing_returns_none() {
    let calls = Rc::new(RefCell::new(Vec::new()));
    let d = RmapiDeployer::new(SharedRunner {
        calls: calls.clone(),
        get_succeeds: false,
    });
    let result = d.fetch("/RMDev/Reader", "Library").unwrap();
    assert!(result.is_none());
    let c = calls.borrow();
    assert_eq!(c[0], vec!["-ni", "get", "/RMDev/Reader/Library"]);
}

#[test]
fn fetch_success_returns_path() {
    let calls = Rc::new(RefCell::new(Vec::new()));
    let d = RmapiDeployer::new(WritingRunner {
        calls: calls.clone(),
        files: RefCell::new(vec![]),
    });
    let result = d.fetch("/RMDev/Reader", "Library").unwrap();
    assert!(result.is_some(), "expected Some(path), got None");
    let path = PathBuf::from(result.unwrap());
    assert!(
        path.file_name().and_then(|n| n.to_str()).unwrap_or("") == "rmreader-Library.rmdoc",
        "unexpected filename: {}",
        path.display()
    );
    let c = calls.borrow();
    assert_eq!(c[0], vec!["-ni", "get", "/RMDev/Reader/Library"]);
}

#[test]
fn local_deployer_does_nothing() {
    let l = LocalDeployer;
    assert!(l.deploy(&[("a.pdf".into(), "/R".into())]).is_ok());
    assert!(l.refresh(&[]).is_ok());
    assert_eq!(l.fetch("/R", "Library").unwrap(), None);
    assert!(l.replace("a.pdf", "/R").is_ok());
}

#[test]
fn file_stems_and_bundle_names() {
    assert_eq!(file_stem("/o/Library.pdf"), "Library");
    assert_eq!(file_stem("Feed.tar.pdf"), "Feed.tar");
    assert_eq!(file_stem("/o/.hidden"), ".hidden");
    assert_eq!(file_stem("noext"), "noext");
    assert_eq!(bundle_names("Library"), ("Library.rmdoc".to_string(), "rmreader-Library.rmdoc".to_string()));
}

#[test]
fn blank_conf_needs_both_tokens() {
    assert!(!is_blank_conf(b"devicetoken: \"abc\"\nusertoken: xyz\n"));
    assert!(is_blank_conf(b"devicetoken: \"\"\nusertoken: xyz\n"));
    assert!(is_blank_conf(b"devicetoken: abc\n"));
    assert!(is_blank_conf(b""));
    assert!(!is_blank_conf(b"  devicetoken:abc\r\nusertoken::\"q\"\r\n"));
}

#[test]
fn backend_is_none_or_rmapi() {
    let mut c: Config = rmreader::wizard::assemble(rmreader::wizard::Answers {
        output_dir: ".".into(),
        device: "paper-pro".into(),
        token: "t".into(),
        library_locations: vec!["new".into()],
        library_max: 1,
        feed_enabled: false,
        feed_max: 1,
        images_enabled: false,
        deploy_backend: "none".into(),
        library_folder: String::new(),
        feed_folder: String::new(),
    })
    .0;
    assert_eq!(get_deployer(&c), Ok(Backend::Local));
    c.deploy.backend = "rmapi".into();
    assert_eq!(get_deployer(&c), Ok(Backend::Rmapi));
    c.deploy.backend = "scp".into();
    assert!(get_deployer(&c).is_err());
}

const GOOD_CONF: &[u8] = b"devicetoken: abc\nusertoken: def\n";

#[test]
fn process_rmapi_checks_binary_then_pairing() {
    let e = ProcessRmapi::with("/opt/rmapi".into(), "/c".into(), false, None).unwrap_err();
    assert_eq!(e.message, "`/opt/rmapi` is not an executable file");
    let e = ProcessRmapi::with("rmapi".into(), "/c".into(), false, None).unwrap_err();
    assert_eq!(
        e.message,
        "`rmapi` not found on PATH; the flake dev shell provides it (run inside `nix develop`)"
    );
    let e = ProcessRmapi::with("rmapi".into(), "/c/rmapi.conf".into(), true, None).unwrap_err();
    assert_eq!(
        e.message,
        "rmapi is not paired (no conf at /c/rmapi.conf). Pair once by running `rmapi` with a code \
         from https://my.remarkable.com/device/desktop/connect"
    );
    let blank = b"devicetoken: \"\"\nusertoken: def\n".to_vec();
    let e = ProcessRmapi::with("rmapi".into(), "/c/rmapi.conf".into(), true, Some(blank)).unwrap_err();
    assert_eq!(e.message, "rmapi conf at /c/rmapi.conf has blank tokens; re-pair by running `rmapi`");
    let p = ProcessRmapi::with("./bin/rmapi".into(), "/c/rmapi.conf".into(), true, Some(GOOD_CONF.to_vec()))
        .unwrap();
    assert_eq!(p.bin(), "./bin/rmapi");
    assert_eq!(p.conf_path(), "/c/rmapi.conf");
    assert_eq!(p.snapshot(), GOOD_CONF);
}

#[test]
fn process_rmapi_new_uses_rmapi_on_path() {
    let p = ProcessRmapi::new("/h/.config/rmapi/rmapi.conf".into(), true, Some(GOOD_CONF.to_vec())).unwrap();
    assert_eq!(p.bin(), "rmapi");
    let e = ProcessRmapi::new("/x".into(), false, Some(GOOD_CONF.to_vec())).unwrap_err();
    assert!(e.message.contains("not found on PATH"));
}

#[test]
fn explicit_bin_has_a_directory_part() {
    assert!(!is_explicit_bin("rmapi"));
    assert!(!is_explicit_bin("rmapi/"));
    assert!(!is_explicit_bin(""));
    assert!(!is_explicit_bin("."));
    assert!(!is_explicit_bin("a/."));
    assert!(is_explicit_bin("/usr/bin/rmapi"));
    assert!(is_explicit_bin("/rmapi"));
    assert!(is_explicit_bin("./rmapi"));
    assert!(is_explicit_bin("bin/rmapi"));
    assert!(is_explicit_bin("a//b"));
    for s in ["rmapi", "rmapi/", "", ".", "a/.", "/usr/bin/rmapi", "./rmapi", "bin/rmapi", "a//b", "a/./"] {
        let p = std::path::Path::new(s);
        assert_eq!(is_explicit_bin(s), p.components().count() > 1 || p.is_absolute(), "{s:?}");
    }
}

#[test]
fn conf_path_follows_rmapi_lookup_order() {
    let s = |v: &str| Some(v.to_string());
    assert_eq!(default_conf_path(s("/x"), s("/y"), s("/h")), "/x/rmapi/rmapi.conf");
    assert_eq!(default_conf_path(None, s("/y/"), s("/h")), "/y/rmapi/rmapi.conf");
    assert_eq!(default_conf_path(None, None, s("/home/u")), "/home/u/.config/rmapi/rmapi.conf");
    assert_eq!(default_conf_path(None, None, None), ".config/rmapi/rmapi.conf");
    assert_eq!(default_conf_path(s(""), None, None), "rmapi/rmapi.conf");
}

/// Drive a guarded call with the outcomes in `events`; the actions taken.
fn drive(events: &[GuardEvent]) -> Vec<GuardAction> {
    let (mut state, action) = guard_start();
    let mut out = vec![action];
    for e in events {
        let (s, a) = guard_step(state, *e);
        state = s;
        out.push(a);
    }
    out
}

#[test]
fn guarded_call_succeeds_first_time() {
    assert_eq!(
        drive(&[GuardEvent::Attempted(true)]),
        vec![GuardAction::Attempt, GuardAction::Finish(true)]
    );
}

#[test]
fn guarded_call_restores_blank_conf_and_retries_once() {
    assert_eq!(
        drive(&[
            GuardEvent::Attempted(false),
            GuardEvent::ConfChecked(true),
            GuardEvent::Restored,
            GuardEvent::Attempted(true),
        ]),
        vec![
            GuardAction::Attempt,
            GuardAction::CheckConf,
            GuardAction::RestoreSnapshot,
            GuardAction::Attempt,
            GuardAction::Finish(true),
        ]
    );
    assert_eq!(
        drive(&[
            GuardEvent::Attempted(false),
            GuardEvent::ConfChecked(true),
            GuardEvent::Restored,
            GuardEvent::Attempted(false),
        ])
        .last(),
        Some(&GuardAction::Finish(false))
    );
}

#[test]
fn guarded_call_fails_without_retry_when_conf_intact() {
    assert_eq!(
        drive(&[GuardEvent::Attempted(false), GuardEvent::ConfChecked(false)]),
        vec![GuardAction::Attempt, GuardAction::CheckConf, GuardAction::Finish(false)]
    );
    assert_eq!(guard_step(GuardState::Done(true), GuardEvent::Restored), (GuardState::Done(true), GuardAction::Finish(true)));
}

#[test]
fn upload_plan_makes_folders_then_puts() {
    let t = vec![("/o/Library.pdf".to_string(), "/R".to_string()), ("/o/Feed.pdf".to_string(), "/F".to_string())];
    let view = |p: Vec<rmreader::deploy::rmapi::RmapiCall>| {
        p.into_iter().map(|c| (c.args.join(" "), c.stop_on_failure)).collect::<Vec<_>>()
    };
    assert_eq!(
        view(rmreader::deploy::rmapi::upload_plan(&t, false)),
        vec![
            ("-ni mkdir /R".to_string(), false),
            ("-ni put /o/Library.pdf /R".to_string(), true),
            ("-ni mkdir /F".to_string(), false),
            ("-ni put /o/Feed.pdf /F".to_string(), true),
        ]
    );
    assert_eq!(
        view(rmreader::deploy::rmapi::upload_plan(&t, true)),
        vec![
            ("-ni put --content-only /o/Library.pdf /R".to_string(), true),
            ("-ni put --content-only /o/Feed.pdf /F".to_string(), true),
        ]
    );
    assert!(rmreader::deploy::rmapi::upload_plan(&[], false).is_empty());
}
