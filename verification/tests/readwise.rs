use rmreader::readwise::{
    auth_request, create_highlights, delete_document, delete_request, highlights_request,
    parse_retry_after, reading_time_text, update_request, highlights_request_body, list_url, merge_documents,
    request_list_page, retry_wait, update_location, validate_token, ActionKind, Document,
    HighlightCreate, HttpError, HttpMethod, HttpResponse, HttpTransport, ReadwiseError,
};
use std::cell::RefCell;

// --- Recording fake for the action tests ---

#[allow(clippy::type_complexity)]
struct Recording {
    last: RefCell<Option<(HttpMethod, String, String, Option<String>)>>,
    status: u16,
}

impl HttpTransport for Recording {
    fn request(
        &self,
        method: HttpMethod,
        url: &str,
        token: &str,
        body: Option<&str>,
    ) -> Result<HttpResponse, HttpError> {
        *self.last.borrow_mut() = Some((
            method,
            url.to_string(),
            token.to_string(),
            body.map(|s| s.to_string()),
        ));
        Ok(HttpResponse {
            status: self.status,
            retry_after: None,
            body: String::new(),
        })
    }
}

#[test]
fn update_location_issues_patch_with_body_and_auth() {
    let r = Recording {
        last: RefCell::new(None),
        status: 200,
    };
    update_location(&r, "TKN", "doc123", "archive").unwrap();
    let last = r.last.borrow().clone().unwrap();
    assert_eq!(last.0, HttpMethod::Patch);
    assert_eq!(last.1, "https://readwise.io/api/v3/update/doc123/");
    assert_eq!(last.2, "TKN");
    assert_eq!(last.3, Some("{\"location\":\"archive\"}".to_string()));
}

#[test]
fn delete_issues_delete() {
    let r = Recording {
        last: RefCell::new(None),
        status: 204,
    };
    delete_document(&r, "TKN", "doc9").unwrap();
    let last = r.last.borrow().clone().unwrap();
    assert_eq!(last.0, HttpMethod::Delete);
    assert_eq!(last.1, "https://readwise.io/api/v3/delete/doc9/");
}

#[test]
fn create_highlights_posts_v2_with_source_url() {
    let r = Recording {
        last: RefCell::new(None),
        status: 200,
    };
    create_highlights(
        &r,
        "TKN",
        &[HighlightCreate {
            text: "hello".into(),
            title: "T".into(),
            author: "A".into(),
            source_url: "https://x/y".into(),
            category: "articles".into(),
        }],
    )
    .unwrap();
    let last = r.last.borrow().clone().unwrap();
    assert_eq!(last.0, HttpMethod::Post);
    assert_eq!(last.1, "https://readwise.io/api/v2/highlights/");
    assert_eq!(last.2, "TKN");
    let body = last.3.unwrap();
    assert!(
        body.contains("\"source_url\":\"https://x/y\""),
        "body: {body}"
    );
    assert!(body.contains("\"text\":\"hello\""), "body: {body}");
}

/// A fake that counts request() calls — used to verify no-op paths.
struct Counting {
    n: std::cell::RefCell<usize>,
}
impl HttpTransport for Counting {
    fn request(
        &self,
        _method: HttpMethod,
        _url: &str,
        _token: &str,
        _body: Option<&str>,
    ) -> Result<HttpResponse, HttpError> {
        *self.n.borrow_mut() += 1;
        Ok(HttpResponse {
            status: 200,
            retry_after: None,
            body: String::new(),
        })
    }
}

#[test]
fn create_highlights_empty_is_noop() {
    let fake = Counting {
        n: std::cell::RefCell::new(0),
    };
    create_highlights(&fake, "TKN", &[]).unwrap();
    assert_eq!(
        *fake.n.borrow(),
        0,
        "must make zero HTTP calls for empty input"
    );
}

#[test]
fn action_kind_maps_locations() {
    assert_eq!(ActionKind::Inbox.location(), Some("new"));
    assert_eq!(ActionKind::Later.location(), Some("later"));
    assert_eq!(ActionKind::Archive.location(), Some("archive"));
    assert_eq!(ActionKind::Delete.location(), None);
    assert_eq!(
        ActionKind::parse_label("ARCHIVE"),
        Some(ActionKind::Archive)
    );
    assert_eq!(ActionKind::parse_label("nope"), None);
}

// --- Scripted fake for list pages ---

struct Scripted {
    calls: RefCell<Vec<String>>,
    script: Vec<(u16, Option<u64>)>,
    idx: RefCell<usize>,
}

impl HttpTransport for Scripted {
    fn request(
        &self,
        _method: HttpMethod,
        url: &str,
        _token: &str,
        _body: Option<&str>,
    ) -> Result<HttpResponse, HttpError> {
        self.calls.borrow_mut().push(url.to_string());
        let mut i = self.idx.borrow_mut();
        let (status, retry_after) = self.script[*i];
        *i += 1;
        Ok(HttpResponse { status, retry_after, body: format!("page {}", *i) })
    }
}

#[test]
fn list_page_retries_after_429_then_5xx() {
    let fake = Scripted {
        calls: RefCell::new(vec![]),
        script: vec![(429, Some(7)), (502, None), (200, None)],
        idx: RefCell::new(0),
    };
    let slept = RefCell::new(Vec::new());
    let resp = request_list_page(&fake, "tok", "new", Some("CUR"), &|s: u64| slept.borrow_mut().push(s)).unwrap();
    assert_eq!(resp.status, 200);
    assert_eq!(resp.body, "page 3");
    assert_eq!(*slept.borrow(), vec![7, 3]);
    let calls = fake.calls.borrow();
    assert!(calls[0].contains("location=new"));
    assert!(calls[0].contains("withHtmlContent=true"));
    assert!(calls[0].contains("pageCursor=CUR"));
}

#[test]
fn list_page_gives_up_after_five_retries() {
    let fake = Scripted {
        calls: RefCell::new(vec![]),
        script: vec![(503, None); 6],
        idx: RefCell::new(0),
    };
    let r = request_list_page(&fake, "tok", "later", None, &|_s: u64| {});
    match r {
        Err(ReadwiseError::List { status, location }) => {
            assert_eq!(status, 503);
            assert_eq!(location, "later");
        }
        other => panic!("unexpected: {other:?}"),
    }
    assert_eq!(fake.calls.borrow().len(), 6);
}

#[test]
fn retry_waits() {
    assert_eq!(retry_wait(429, None, 0), Some(60));
    assert_eq!(retry_wait(429, Some(2), 4), Some(2));
    assert_eq!(retry_wait(500, None, 0), Some(3));
    assert_eq!(retry_wait(500, None, 5), None);
    assert_eq!(retry_wait(404, None, 0), None);
}

fn d(id: &str, saved: &str) -> Document {
    Document {
        id: id.into(),
        url: String::new(),
        source_url: String::new(),
        title: format!("T{id}"),
        author: String::new(),
        site_name: String::new(),
        category: "article".into(),
        location: "new".into(),
        summary: String::new(),
        image_url: String::new(),
        word_count: None,
        reading_time: None,
        published_date: None,
        saved_at: saved.into(),
        html_content: Some("<p>x</p>".into()),
    }
}

#[test]
fn merge_sorts_newest_first_dedupes_and_caps() {
    let all = vec![
        d("a", "2026-01-01T00:00:00Z"),
        d("b", "2026-03-01T00:00:00Z"),
        d("c", "2026-02-01T00:00:00Z"),
        d("a", "2026-01-01T00:00:00Z"),
    ];
    let merged = merge_documents(all.clone(), 3);
    assert_eq!(merged.iter().map(|d| d.id.as_str()).collect::<Vec<_>>(), vec!["b", "c", "a"]);
    let capped = merge_documents(all, 2);
    assert_eq!(capped.iter().map(|d| d.id.as_str()).collect::<Vec<_>>(), vec!["b", "c"]);
}

#[test]
fn list_url_and_bodies() {
    assert_eq!(
        list_url("new", None),
        "https://readwise.io/api/v3/list/?withHtmlContent=true&limit=50&location=new"
    );
    assert!(list_url("feed", Some("C1")).ends_with("&pageCursor=C1"));
    let body = highlights_request_body(&[HighlightCreate {
        text: "a \"q\"".into(),
        title: "T".into(),
        author: String::new(),
        source_url: String::new(),
        category: "articles".into(),
    }]);
    assert_eq!(body, "{\"highlights\":[{\"category\":\"articles\",\"text\":\"a \\\"q\\\"\",\"title\":\"T\"}]}");
}

#[test]
fn token_validation_accepts_204_and_rejects_401() {
    let ok = Recording { last: RefCell::new(None), status: 204 };
    assert!(validate_token(&ok, "t").is_ok());
    assert_eq!(ok.last.borrow().as_ref().unwrap().1, "https://readwise.io/api/v2/auth/");
    let bad = Recording { last: RefCell::new(None), status: 401 };
    assert!(matches!(validate_token(&bad, "t"), Err(ReadwiseError::TokenRejected { status: 401 })));
}

#[test]
fn retry_after_header_is_trimmed_whole_seconds() {
    assert_eq!(parse_retry_after(None), None);
    assert_eq!(parse_retry_after(Some(" 7 ")), Some(7));
    assert_eq!(parse_retry_after(Some("+30")), Some(30));
    assert_eq!(parse_retry_after(Some("18446744073709551615")), Some(u64::MAX));
    assert_eq!(parse_retry_after(Some("18446744073709551616")), None);
    assert_eq!(parse_retry_after(Some("1.5")), None);
    assert_eq!(parse_retry_after(Some("-1")), None);
    assert_eq!(parse_retry_after(Some("+")), None);
    assert_eq!(parse_retry_after(Some("")), None);
    assert_eq!(parse_retry_after(Some("Wed, 21 Oct 2015 07:28:00 GMT")), None);
}

#[test]
fn methods_go_on_the_wire_in_capitals() {
    assert_eq!(HttpMethod::Get.as_str(), "GET");
    assert_eq!(HttpMethod::Patch.as_str(), "PATCH");
    assert_eq!(HttpMethod::Delete.as_str(), "DELETE");
    assert_eq!(HttpMethod::Post.as_str(), "POST");
}

#[test]
fn request_shapes_for_each_operation() {
    let r = update_request("d1", "archive");
    assert_eq!(r.method, HttpMethod::Patch);
    assert_eq!(r.url, "https://readwise.io/api/v3/update/d1/");
    assert_eq!(r.body.as_deref(), Some("{\"location\":\"archive\"}"));
    let r = delete_request("d2");
    assert_eq!(r.method, HttpMethod::Delete);
    assert_eq!(r.url, "https://readwise.io/api/v3/delete/d2/");
    assert_eq!(r.body, None);
    let r = auth_request();
    assert_eq!(r.method, HttpMethod::Get);
    assert_eq!(r.url, "https://readwise.io/api/v2/auth/");
    assert_eq!(r.body, None);
    let r = highlights_request(&[]);
    assert_eq!(r.method, HttpMethod::Post);
    assert_eq!(r.url, "https://readwise.io/api/v2/highlights/");
    assert_eq!(r.body.as_deref(), Some("{\"highlights\":[]}"));
}

#[test]
fn reading_time_text_is_trimmed_or_absent() {
    assert_eq!(reading_time_text(" 3 mins ").as_deref(), Some("3 mins"));
    assert_eq!(reading_time_text("   "), None);
    assert_eq!(reading_time_text(""), None);
}

#[test]
fn json_strings_match_serde_json() {
    for s in ["", "plain", "a\"b", "back\\slash", "\u{8}\t\n\u{c}\r", "\u{0}\u{1}\u{1f}\u{7f}", "é ü 中 🙂"] {
        let want = format!("{{\"location\":{}}}", serde_json::to_string(s).unwrap());
        assert_eq!(rmreader::readwise::location_request_body(s), want, "{s:?}");
    }
}

#[test]
fn list_answers_are_retried_waited_or_final() {
    assert_eq!(rmreader::readwise::list_step(429, Some(7), 0), rmreader::readwise::ListStep::Retry(7));
    assert_eq!(rmreader::readwise::list_step(429, None, 4), rmreader::readwise::ListStep::Retry(60));
    assert_eq!(rmreader::readwise::list_step(502, None, 0), rmreader::readwise::ListStep::Retry(3));
    assert_eq!(rmreader::readwise::list_step(503, None, 5), rmreader::readwise::ListStep::Reject);
    assert_eq!(rmreader::readwise::list_step(200, None, 0), rmreader::readwise::ListStep::Accept);
    assert_eq!(rmreader::readwise::list_step(404, Some(9), 0), rmreader::readwise::ListStep::Reject);
}
