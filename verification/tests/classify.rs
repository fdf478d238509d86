use rmreader::manifest::{EmbeddedDoc, EmbeddedManifest, PageRange};
use rmreader::readback::classify::{classify, StrokeReading, TextHit};
use rmreader::readback::{execute, ExecIssue};
use rmreader::readwise::{ActionKind, HttpError, HttpMethod, HttpResponse, HttpTransport};
use std::cell::RefCell;

fn manifest() -> EmbeddedManifest {
    EmbeddedManifest {
        schema_version: 1,
        collection: "Library".into(),
        docs: vec![
            EmbeddedDoc {
                id: "b".into(),
                title: "Tb".into(),
                url: "https://b".into(),
                author: "Ab".into(),
                category: "article".into(),
                page_range: PageRange { first: 1, last: 2 },
            },
            EmbeddedDoc {
                id: "a".into(),
                title: "Ta".into(),
                url: "https://a".into(),
                author: String::new(),
                category: "tweet".into(),
                page_range: PageRange { first: 3, last: 3 },
            },
        ],
    }
}

fn stroke(page: usize, label: Option<&str>, text: &str) -> StrokeReading {
    StrokeReading { page, label: label.map(|s| s.to_string()), text: text.into() }
}

#[test]
fn body_stroke_becomes_content_highlight() {
    let plan = classify(&manifest(), &[], &[stroke(2, None, "  the highlighted sentence ")]);
    assert!(plan.actions.is_empty());
    assert_eq!(plan.highlights.len(), 1);
    assert_eq!(plan.highlights[0].text, "the highlighted sentence");
    assert_eq!(plan.highlights[0].source_url, "https://b");
    assert_eq!(plan.highlights[0].title, "Tb");
}

#[test]
fn stroke_over_archive_cell_is_archive_action() {
    let plan = classify(&manifest(), &[], &[stroke(1, Some("archive"), "ARCHIVE")]);
    assert_eq!(plan.actions, vec![("b".to_string(), ActionKind::Archive)]);
    assert!(plan.highlights.is_empty());
}

#[test]
fn two_distinct_actions_skip_with_warning() {
    let plan = classify(
        &manifest(),
        &[],
        &[stroke(1, Some("archive"), ""), stroke(2, Some("later"), "")],
    );
    assert!(plan.actions.is_empty());
    assert_eq!(plan.warnings.len(), 1);
    assert!(plan.warnings[0].contains("doc b"));
}

#[test]
fn duplicate_same_action_applies_once() {
    let plan = classify(
        &manifest(),
        &[TextHit { page: 1, text: "Archive".into() }],
        &[stroke(2, Some("ARCHIVE"), "")],
    );
    assert_eq!(plan.actions, vec![("b".to_string(), ActionKind::Archive)]);
}

#[test]
fn off_manifest_and_empty_hits_warn() {
    let plan = classify(
        &manifest(),
        &[TextHit { page: 0, text: "x".into() }, TextHit { page: 3, text: "  ".into() }],
        &[stroke(9, None, "y"), stroke(3, None, "")],
    );
    assert!(plan.actions.is_empty() && plan.highlights.is_empty());
    assert_eq!(plan.warnings.len(), 4);
    assert_eq!(plan.warnings[0], "text highlight on page 0 not in manifest; skipped");
}

#[test]
fn actions_come_in_doc_id_order_one_per_doc() {
    let plan = classify(
        &manifest(),
        &[],
        &[stroke(1, Some("delete"), ""), stroke(3, Some("inbox"), "")],
    );
    assert_eq!(
        plan.actions,
        vec![("a".to_string(), ActionKind::Inbox), ("b".to_string(), ActionKind::Delete)]
    );
}

#[test]
fn entities_are_decoded_in_highlights() {
    let plan = classify(&manifest(), &[TextHit { page: 3, text: "a &amp; b".into() }], &[]);
    assert_eq!(plan.highlights[0].text, "a & b");
    assert_eq!(plan.highlights[0].category, "tweets");
}

struct Status {
    calls: RefCell<Vec<(HttpMethod, String)>>,
    status: u16,
}

impl HttpTransport for Status {
    fn request(&self, method: HttpMethod, url: &str, _t: &str, _b: Option<&str>) -> Result<HttpResponse, HttpError> {
        self.calls.borrow_mut().push((method, url.to_string()));
        Ok(HttpResponse { status: self.status, retry_after: None, body: String::new() })
    }
}

#[test]
fn execute_applies_actions_then_highlights() {
    let plan = classify(
        &manifest(),
        &[TextHit { page: 1, text: "quote".into() }],
        &[stroke(1, Some("delete"), ""), stroke(3, Some("later"), "")],
    );
    let ok = Status { calls: RefCell::new(vec![]), status: 200 };
    assert!(execute(&ok, "t", &plan).is_empty());
    let calls = ok.calls.borrow();
    assert_eq!(calls.len(), 3);
    assert_eq!(calls[0], (HttpMethod::Patch, "https://readwise.io/api/v3/update/a/".to_string()));
    assert_eq!(calls[1], (HttpMethod::Delete, "https://readwise.io/api/v3/delete/b/".to_string()));
    assert_eq!(calls[2].0, HttpMethod::Post);

    let failing = Status { calls: RefCell::new(vec![]), status: 500 };
    let issues = execute(&failing, "t", &plan);
    assert_eq!(issues.len(), 3);
    assert!(matches!(&issues[0], ExecIssue::Action { id, kind: ActionKind::Later, .. } if id == "a"));
    assert!(matches!(&issues[2], ExecIssue::Highlights { .. }));
}
