//! Readwise Reader API client logic: how each request is built, how each
//! response is judged, the retry policy for list pages, and how listed
//! documents are merged (deduplicated, ordered newest first, capped).
//!
//! The network itself is behind [`HttpTransport`]; JSON decoding of list pages
//! happens outside the library, whose caller hands the decoded [`Document`]s
//! to [`merge_documents`].
use vstd::prelude::*;

use crate::text::{
    hex_fixed, push_hex_fixed,
    ascii_lower_seq, chars_of, extend_str, lower_ascii, push_decimal, string_of, trim, trim_chars,
    decimal,
};

verus! {

/// A plain HTTP response as the transport reports it.
#[derive(Debug, Clone)]
pub struct HttpResponse {
    pub status: u16,
    pub retry_after: Option<u64>,
    pub body: String,
}

#[derive(Debug, Clone, Copy, PartialEq, Eq, Structural)]
pub enum HttpMethod {
    Get,
    Patch,
    Delete,
    Post,
}

/// The method name as it goes on the wire.
pub open spec fn method_name(m: HttpMethod) -> Seq<char> {
    match m {
        HttpMethod::Get => "GET"@,
        HttpMethod::Patch => "PATCH"@,
        HttpMethod::Delete => "DELETE"@,
        HttpMethod::Post => "POST"@,
    }
}

impl HttpMethod {
    pub fn as_str(self) -> (r: &'static str)
        ensures
            r@ == method_name(self),
    {
        match self {
            HttpMethod::Get => "GET",
            HttpMethod::Patch => "PATCH",
            HttpMethod::Delete => "DELETE",
            HttpMethod::Post => "POST",
        }
    }
}

/// A transport-level failure (connection, TLS, timeout, ...).
#[derive(Debug, Clone)]
pub struct HttpError {
    pub message: String,
}

/// Low-level seam so pagination, retries and request shapes are testable
/// without a network.
pub trait HttpTransport {
    fn request(
        &self,
        method: HttpMethod,
        url: &str,
        token: &str,
        body: Option<&str>,
    ) -> Result<HttpResponse, HttpError>;
}

/// Failures of the Readwise operations.
#[derive(Debug, Clone)]
pub enum ReadwiseError {
    /// The transport could not complete the request.
    Transport(HttpError),
    /// `POST /api/v2/highlights/` answered with a non-2xx status.
    CreateHighlights { status: u16 },
    /// `PATCH /api/v3/update/{id}/` answered with a non-2xx status.
    Update { id: String, loc: String, status: u16 },
    /// `DELETE /api/v3/delete/{id}/` answered with a non-2xx status.
    Delete { id: String, status: u16 },
    /// `GET /api/v2/auth/` answered with neither 200 nor 204.
    TokenRejected { status: u16 },
    /// A list page answered with a status other than 200 after retries.
    List { status: u16, location: String },
    /// A list page body could not be decoded.
    Decode { message: String },
}

#[derive(Debug, Clone, Copy, PartialEq, Eq, Structural)]
pub enum ActionKind {
    Inbox,
    Later,
    Archive,
    Delete,
}

/// The action named by an (already trimmed and lowercased) label word.
pub open spec fn label_kind(t: Seq<char>) -> Option<ActionKind> {
    if t == "inbox"@ {
        Some(ActionKind::Inbox)
    } else if t == "later"@ {
        Some(ActionKind::Later)
    } else if t == "archive"@ {
        Some(ActionKind::Archive)
    } else if t == "delete"@ {
        Some(ActionKind::Delete)
    } else {
        None
    }
}

/// Readwise `location` value of a move action.
pub open spec fn kind_location(k: ActionKind) -> Option<Seq<char>> {
    match k {
        ActionKind::Inbox => Some("new"@),
        ActionKind::Later => Some("later"@),
        ActionKind::Archive => Some("archive"@),
        ActionKind::Delete => None,
    }
}

impl ActionKind {
    /// The Readwise `location` value for a move action; `None` for Delete
    /// (which uses a different endpoint).
    pub fn location(self) -> (r: Option<&'static str>)
        ensures
            r matches Some(s) ==> kind_location(self) == Some(s@),
            (r is None) <==> (kind_location(self) is None),
    {
        match self {
            ActionKind::Inbox => Some("new"),
            ActionKind::Later => Some("later"),
            ActionKind::Archive => Some("archive"),
            ActionKind::Delete => None,
        }
    }

    /// Parse an action label word (surrounding whitespace ignored, ASCII
    /// case-insensitive) into a kind.
    pub fn parse_label(s: &str) -> (r: Option<ActionKind>)
        ensures
            r == label_kind(ascii_lower_seq(trim(s@))),
    {
        let t = trim_chars(&chars_of(s));
        let l = lower_ascii(&t);
        let inbox = chars_of("inbox");
        let later = chars_of("later");
        let archive = chars_of("archive");
        let delete = chars_of("delete");
        if crate::text::chars_eq(&l, &inbox) {
            Some(ActionKind::Inbox)
        } else if crate::text::chars_eq(&l, &later) {
            Some(ActionKind::Later)
        } else if crate::text::chars_eq(&l, &archive) {
            Some(ActionKind::Archive)
        } else if crate::text::chars_eq(&l, &delete) {
            Some(ActionKind::Delete)
        } else {
            None
        }
    }
}

/// A highlight to create through the v2 highlights endpoint.
#[derive(Debug, Clone, PartialEq)]
pub struct HighlightCreate {
    pub text: String,
    pub title: String,
    pub author: String,
    pub source_url: String,
    pub category: String,
}

/// One Readwise Reader document as listed by the API.
#[derive(Debug, Clone)]
pub struct Document {
    pub id: String,
    pub url: String,
    pub source_url: String,
    pub title: String,
    pub author: String,
    pub site_name: String,
    pub category: String,
    pub location: String,
    pub summary: String,
    pub image_url: String,
    pub word_count: Option<u32>,
    pub reading_time: Option<String>,
    pub published_date: Option<String>,
    pub saved_at: String,
    pub html_content: Option<String>,
}

/// A textual `reading_time` ("3 mins"): trimmed; `None` when blank.
pub fn reading_time_text(s: &str) -> (r: Option<String>)
    ensures
        r matches Some(t) ==> t@ == trim(s@) && trim(s@).len() > 0,
        r is None ==> trim(s@).len() == 0,
{
    let t = trim_chars(&chars_of(s));
    if t.len() == 0 {
        None
    } else {
        Some(string_of(&t))
    }
}

// ---------------------------------------------------------------------------
// JSON string literals
// ---------------------------------------------------------------------------

/// One character inside a JSON string literal: `"` and `\\` escaped, the
/// control characters with short escapes written so, the other ones below
/// U+0020 as `\\u00xx` (lowercase hex), everything else as it is.
pub open spec fn json_char(c: char) -> Seq<char> {
    if c == '"' {
        seq!['\\', '"']
    } else if c == '\\' {
        seq!['\\', '\\']
    } else if c == '\u{8}' {
        seq!['\\', 'b']
    } else if c == '\t' {
        seq!['\\', 't']
    } else if c == '\n' {
        seq!['\\', 'n']
    } else if c == '\u{c}' {
        seq!['\\', 'f']
    } else if c == '\r' {
        seq!['\\', 'r']
    } else if (c as u32) < 0x20 {
        seq!['\\', 'u', '0', '0'] + hex_fixed(c as nat, 2)
    } else {
        seq![c]
    }
}

pub open spec fn json_chars(s: Seq<char>) -> Seq<char>
    decreases s.len(),
{
    if s.len() == 0 {
        Seq::empty()
    } else {
        json_chars(s.drop_last()) + json_char(s.last())
    }
}

/// The JSON string literal (quotes and escapes included) for `s`, as
/// `serde_json` writes one.
#[verifier::opaque]
pub open spec fn spec_json_string(s: Seq<char>) -> Seq<char> {
    seq!['"'] + json_chars(s) + seq!['"']
}

fn push_json_char(out: &mut Vec<char>, c: char)
    ensures
        final(out)@ == old(out)@ + json_char(c),
{
    let ghost start = out@;
    if c == '"' {
        out.push('\\');
        out.push('"');
    } else if c == '\\' {
        out.push('\\');
        out.push('\\');
    } else if c == '\u{8}' {
        out.push('\\');
        out.push('b');
    } else if c == '\t' {
        out.push('\\');
        out.push('t');
    } else if c == '\n' {
        out.push('\\');
        out.push('n');
    } else if c == '\u{c}' {
        out.push('\\');
        out.push('f');
    } else if c == '\r' {
        out.push('\\');
        out.push('r');
    } else if (c as u32) < 0x20 {
        out.push('\\');
        out.push('u');
        out.push('0');
        out.push('0');
        push_hex_fixed(out, c as u32 as u64, 2);
    } else {
        out.push(c);
    }
    assert(out@ =~= start + json_char(c));
}

fn push_json_string(out: &mut Vec<char>, s: &str)
    ensures
        final(out)@ == old(out)@ + spec_json_string(s@),
{
    let ghost start = out@;
    out.push('"');
    let cs = chars_of(s);
    let mut i: usize = 0;
    while i < cs.len()
        invariant
            i <= cs.len(),
            cs@ == s@,
            out@ == start + seq!['"'] + json_chars(cs@.take(i as int)),
        decreases cs.len() - i,
    {
        push_json_char(out, cs[i]);
        i = i + 1;
        assert(cs@.take(i as int).drop_last() =~= cs@.take(i - 1));
        assert(out@ =~= start + seq!['"'] + json_chars(cs@.take(i as int)));
    }
    assert(cs@.take(cs.len() as int) =~= cs@);
    out.push('"');
    proof {
        reveal(spec_json_string);
    }
    assert(out@ =~= start + spec_json_string(s@));
}

// ---------------------------------------------------------------------------
// Request shapes
// ---------------------------------------------------------------------------

pub open spec fn update_url(id: Seq<char>) -> Seq<char> {
    "https://readwise.io/api/v3/update/"@ + id + "/"@
}

pub open spec fn delete_url(id: Seq<char>) -> Seq<char> {
    "https://readwise.io/api/v3/delete/"@ + id + "/"@
}

pub open spec fn auth_url() -> Seq<char> {
    "https://readwise.io/api/v2/auth/"@
}

pub open spec fn highlights_url() -> Seq<char> {
    "https://readwise.io/api/v2/highlights/"@
}

/// `{"location":<loc>}`.
pub open spec fn location_body(loc: Seq<char>) -> Seq<char> {
    "{\"location\":"@ + spec_json_string(loc) + "}"@
}

/// One optional member `,"key":<value>` of a highlight object; omitted when
/// the value is empty.
pub open spec fn opt_member(key: Seq<char>, v: Seq<char>) -> Seq<char> {
    if v.len() == 0 {
        Seq::empty()
    } else {
        ","@ + spec_json_string(key) + ":"@ + spec_json_string(v)
    }
}

/// Leading optional member (no comma) followed by a comma when present.
pub open spec fn lead_member(key: Seq<char>, v: Seq<char>) -> Seq<char> {
    if v.len() == 0 {
        Seq::empty()
    } else {
        spec_json_string(key) + ":"@ + spec_json_string(v) + ","@
    }
}

/// A highlight as a JSON object. Keys appear in sorted order (`serde_json`'s
/// default map) and empty optional fields are omitted:
/// `author`, `category`, `source_url`, `text`, `title`.
pub open spec fn highlight_json(h: HighlightCreate) -> Seq<char> {
    "{"@ + lead_member("author"@, h.author@) + lead_member("category"@, h.category@)
        + lead_member("source_url"@, h.source_url@) + spec_json_string("text"@) + ":"@
        + spec_json_string(h.text@) + opt_member("title"@, h.title@) + "}"@
}

pub open spec fn highlight_list_json(hs: Seq<HighlightCreate>) -> Seq<char>
    decreases hs.len(),
{
    if hs.len() == 0 {
        Seq::empty()
    } else if hs.len() == 1 {
        highlight_json(hs[0])
    } else {
        highlight_list_json(hs.drop_last()) + ","@ + highlight_json(hs.last())
    }
}

/// `{"highlights":[...]}`.
pub open spec fn highlights_body(hs: Seq<HighlightCreate>) -> Seq<char> {
    "{\"highlights\":["@ + highlight_list_json(hs) + "]}"@
}

/// The fields of a highlight as (key, value) pairs, keys in sorted order.
pub open spec fn highlight_fields(h: HighlightCreate) -> Seq<(Seq<char>, Seq<char>)> {
    seq![
        ("author"@, h.author@),
        ("category"@, h.category@),
        ("source_url"@, h.source_url@),
        ("text"@, h.text@),
        ("title"@, h.title@),
    ]
}

/// The fields that are sent: `text` always, any other one when non-empty.
pub open spec fn sent_fields(fs: Seq<(Seq<char>, Seq<char>)>) -> Seq<(Seq<char>, Seq<char>)>
    decreases fs.len(),
{
    if fs.len() == 0 {
        Seq::empty()
    } else if fs[0].1.len() > 0 || fs[0].0 == "text"@ {
        seq![fs[0]] + sent_fields(fs.drop_first())
    } else {
        sent_fields(fs.drop_first())
    }
}

/// One JSON object member `"key":"value"`.
pub open spec fn json_member(f: (Seq<char>, Seq<char>)) -> Seq<char> {
    spec_json_string(f.0) + ":"@ + spec_json_string(f.1)
}

/// Members separated by commas.
pub open spec fn json_members(fs: Seq<(Seq<char>, Seq<char>)>) -> Seq<char>
    decreases fs.len(),
{
    if fs.len() == 0 {
        Seq::empty()
    } else if fs.len() == 1 {
        json_member(fs[0])
    } else {
        json_member(fs[0]) + ","@ + json_members(fs.drop_first())
    }
}

proof fn lemma_sent_layer(f: (Seq<char>, Seq<char>), rest: Seq<(Seq<char>, Seq<char>)>)
    requires
        sent_fields(rest).len() > 0,
        f.0 != "text"@,
    ensures
        sent_fields(seq![f] + rest).len() > 0,
        json_members(sent_fields(seq![f] + rest)) == lead_member(f.0, f.1) + json_members(
            sent_fields(rest),
        ),
{
    let all = seq![f] + rest;
    assert(all.drop_first() =~= rest);
    assert(all[0] == f);
    if f.1.len() > 0 {
        let k = seq![f] + sent_fields(rest);
        assert(k.drop_first() =~= sent_fields(rest));
        assert(k[0] == f);
        assert(json_members(k) =~= lead_member(f.0, f.1) + json_members(sent_fields(rest)));
    } else {
        assert(lead_member(f.0, f.1) + json_members(sent_fields(rest)) =~= json_members(
            sent_fields(rest),
        ));
    }
}

proof fn lemma_text_title(text: Seq<char>, title: Seq<char>)
    ensures
        sent_fields(seq![("text"@, text), ("title"@, title)]).len() > 0,
        json_members(sent_fields(seq![("text"@, text), ("title"@, title)])) == spec_json_string(
            "text"@,
        ) + ":"@ + spec_json_string(text) + opt_member("title"@, title),
{
    reveal_strlit("text");
    reveal_strlit("title");
    let ft = ("text"@, text);
    let fi = ("title"@, title);
    let r1 = seq![fi];
    let r2 = seq![ft, fi];
    assert(r1.drop_first() =~= Seq::<(Seq<char>, Seq<char>)>::empty());
    assert(r2.drop_first() =~= r1);
    assert(r2[0] == ft);
    assert(sent_fields(r1.drop_first()) == Seq::<(Seq<char>, Seq<char>)>::empty());
    assert(r1[0] == fi);
    assert("title"@.len() == 5 && "text"@.len() == 4);
    assert(fi.0 != "text"@);
    let k = seq![ft] + sent_fields(r1);
    assert(sent_fields(r2) == k);
    assert(k.drop_first() =~= sent_fields(r1));
    assert(k[0] == ft);
    if title.len() > 0 {
        assert(sent_fields(r1) =~= seq![fi] + Seq::<(Seq<char>, Seq<char>)>::empty());
        assert(k.drop_first().len() == 1);
        assert(k.drop_first()[0] == fi);
        assert(json_members(k.drop_first()) == json_member(fi));
        assert(json_members(k) == json_member(ft) + ","@ + json_member(fi));
        assert(json_members(k) =~= spec_json_string("text"@) + ":"@ + spec_json_string(text)
            + opt_member("title"@, title));
    } else {
        assert(sent_fields(r1) == Seq::<(Seq<char>, Seq<char>)>::empty());
        assert(k.len() == 1);
        assert(json_members(k) =~= spec_json_string("text"@) + ":"@ + spec_json_string(text)
            + opt_member("title"@, title));
    }
}

/// A highlight object holds exactly the highlight's sent fields, in key
/// order, each as `"key":<JSON string of its value>`: `text` always, and
/// `author`, `category`, `source_url` and `title` whenever they are
/// non-empty.
pub proof fn highlight_json_is_its_fields(h: HighlightCreate)
    ensures
        highlight_json(h) == "{"@ + json_members(sent_fields(highlight_fields(h))) + "}"@,
{
    reveal_strlit("author");
    reveal_strlit("category");
    reveal_strlit("source_url");
    reveal_strlit("text");
    let fa = ("author"@, h.author@);
    let fc = ("category"@, h.category@);
    let fs = ("source_url"@, h.source_url@);
    let r2 = seq![("text"@, h.text@), ("title"@, h.title@)];
    let r3 = seq![fs] + r2;
    let r4 = seq![fc] + r3;
    let r5 = seq![fa] + r4;
    assert(r5 =~= highlight_fields(h));
    lemma_text_title(h.text@, h.title@);
    assert("source_url"@.len() == 10 && "category"@.len() == 8 && "author"@.len() == 6);
    assert("text"@.len() == 4);
    assert(fs.0 != "text"@ && fc.0 != "text"@ && fa.0 != "text"@);
    lemma_sent_layer(fs, r2);
    lemma_sent_layer(fc, r3);
    lemma_sent_layer(fa, r4);
    let la = lead_member("author"@, h.author@);
    let lc = lead_member("category"@, h.category@);
    let ls = lead_member("source_url"@, h.source_url@);
    let t = spec_json_string("text"@) + ":"@ + spec_json_string(h.text@) + opt_member("title"@, h.title@);
    assert(json_members(sent_fields(r5)) == la + (lc + (ls + t)));
    let j1 = spec_json_string("text"@);
    let j2 = spec_json_string(h.text@);
    let ot = opt_member("title"@, h.title@);
    lemma_regroup("{"@, la, lc, ls, j1, ":"@, j2, ot, "}"@);
}

proof fn lemma_regroup(
    o: Seq<char>,
    a: Seq<char>,
    b: Seq<char>,
    c: Seq<char>,
    d: Seq<char>,
    e: Seq<char>,
    f: Seq<char>,
    g: Seq<char>,
    z: Seq<char>,
)
    ensures
        o + a + b + c + d + e + f + g + z == o + (a + (b + (c + (d + e + f + g)))) + z,
{
    assert(o + a + b + c + d + e + f + g + z =~= o + (a + (b + (c + (d + e + f + g)))) + z);
}

fn push_lead_member(out: &mut Vec<char>, key: &str, v: &String)
    ensures
        final(out)@ == old(out)@ + lead_member(key@, v@),
{
    if !v.as_str().is_empty() {
        push_json_string(out, key);
        extend_str(out, ":");
        push_json_string(out, v.as_str());
        extend_str(out, ",");
    } else {
        assert(old(out)@ + Seq::<char>::empty() =~= old(out)@);
    }
}

fn push_opt_member(out: &mut Vec<char>, key: &str, v: &String)
    ensures
        final(out)@ == old(out)@ + opt_member(key@, v@),
{
    if !v.as_str().is_empty() {
        extend_str(out, ",");
        push_json_string(out, key);
        extend_str(out, ":");
        push_json_string(out, v.as_str());
    } else {
        assert(old(out)@ + Seq::<char>::empty() =~= old(out)@);
    }
}

fn push_highlight(out: &mut Vec<char>, h: &HighlightCreate)
    ensures
        final(out)@ == old(out)@ + highlight_json(*h),
{
    extend_str(out, "{");
    push_lead_member(out, "author", &h.author);
    push_lead_member(out, "category", &h.category);
    push_lead_member(out, "source_url", &h.source_url);
    push_json_string(out, "text");
    extend_str(out, ":");
    push_json_string(out, h.text.as_str());
    push_opt_member(out, "title", &h.title);
    extend_str(out, "}");
    assert(final(out)@ =~= old(out)@ + highlight_json(*h));
}

/// The body of `POST /api/v2/highlights/` for `items`.
pub fn highlights_request_body(items: &[HighlightCreate]) -> (r: String)
    ensures
        r@ == highlights_body(items@),
{
    let mut out: Vec<char> = Vec::new();
    extend_str(&mut out, "{\"highlights\":[");
    let ghost start = out@;
    let mut i: usize = 0;
    while i < items.len()
        invariant
            i <= items.len(),
            out@ == start + highlight_list_json(items@.take(i as int)),
        decreases items.len() - i,
    {
        let ghost before = out@;
        if i > 0 {
            extend_str(&mut out, ",");
        }
        push_highlight(&mut out, &items[i]);
        i = i + 1;
        proof {
            let t = items@.take(i as int);
            assert(t.drop_last() =~= items@.take(i - 1));
            if i == 1 {
                assert(items@.take(0) =~= Seq::<HighlightCreate>::empty());
                assert(out@ =~= start + highlight_json(t[0]));
            } else {
                assert(out@ =~= start + (highlight_list_json(t.drop_last()) + ","@ + highlight_json(
                    t.last(),
                )));
            }
        }
    }
    assert(items@.take(items.len() as int) =~= items@);
    extend_str(&mut out, "]}");
    assert(out@ =~= highlights_body(items@));
    string_of(&out)
}

/// The body of `PATCH /api/v3/update/{id}/` moving a document to `loc`.
pub fn location_request_body(loc: &str) -> (r: String)
    ensures
        r@ == location_body(loc@),
{
    let mut out: Vec<char> = Vec::new();
    extend_str(&mut out, "{\"location\":");
    push_json_string(&mut out, loc);
    extend_str(&mut out, "}");
    assert(out@ =~= location_body(loc@));
    string_of(&out)
}

fn url_with_id(base: &str, id: &str) -> (r: String)
    ensures
        r@ == base@ + id@ + "/"@,
{
    let mut out: Vec<char> = Vec::new();
    extend_str(&mut out, base);
    extend_str(&mut out, id);
    extend_str(&mut out, "/");
    assert(out@ =~= base@ + id@ + "/"@);
    string_of(&out)
}

/// A request as it is handed to the transport.
#[derive(Debug, Clone)]
pub struct ApiRequest {
    pub method: HttpMethod,
    pub url: String,
    pub body: Option<String>,
}

pub open spec fn body_is(r: ApiRequest, body: Option<Seq<char>>) -> bool {
    match (r.body, body) {
        (Some(b), Some(want)) => b@ == want,
        (None, None) => true,
        _ => false,
    }
}

/// `PATCH /api/v3/update/{id}/` with `{"location":<loc>}`.
pub fn update_request(id: &str, loc: &str) -> (r: ApiRequest)
    ensures
        r.method == HttpMethod::Patch,
        r.url@ == update_url(id@),
        body_is(r, Some(location_body(loc@))),
{
    ApiRequest {
        method: HttpMethod::Patch,
        url: url_with_id("https://readwise.io/api/v3/update/", id),
        body: Some(location_request_body(loc)),
    }
}

/// `DELETE /api/v3/delete/{id}/`, without a body.
pub fn delete_request(id: &str) -> (r: ApiRequest)
    ensures
        r.method == HttpMethod::Delete,
        r.url@ == delete_url(id@),
        body_is(r, None),
{
    ApiRequest {
        method: HttpMethod::Delete,
        url: url_with_id("https://readwise.io/api/v3/delete/", id),
        body: None,
    }
}

/// `GET /api/v2/auth/`, without a body.
pub fn auth_request() -> (r: ApiRequest)
    ensures
        r.method == HttpMethod::Get,
        r.url@ == auth_url(),
        body_is(r, None),
{
    ApiRequest {
        method: HttpMethod::Get,
        url: string_of(&chars_of("https://readwise.io/api/v2/auth/")),
        body: None,
    }
}

/// `POST /api/v2/highlights/` with the highlights as JSON.
pub fn highlights_request(items: &[HighlightCreate]) -> (r: ApiRequest)
    ensures
        r.method == HttpMethod::Post,
        r.url@ == highlights_url(),
        body_is(r, Some(highlights_body(items@))),
{
    ApiRequest {
        method: HttpMethod::Post,
        url: string_of(&chars_of("https://readwise.io/api/v2/highlights/")),
        body: Some(highlights_request_body(items)),
    }
}

/// Hand `req` to the transport.
pub(crate) fn send<T: HttpTransport + ?Sized>(t: &T, token: &str, req: &ApiRequest) -> (r: Result<
    HttpResponse,
    HttpError,
>) {
    let body: Option<&str> = match &req.body {
        Some(b) => Some(b.as_str()),
        None => None,
    };
    t.request(req.method, req.url.as_str(), token, body)
}

pub open spec fn request_view(r: ApiRequest) -> (HttpMethod, Seq<char>, Option<Seq<char>>) {
    (r.method, r.url@, opt_body(r.body))
}

pub open spec fn opt_body(b: Option<String>) -> Option<Seq<char>> {
    match b {
        Some(s) => Some(s@),
        None => None,
    }
}

/// The request that carries out action `kind` on document `id`: a delete,
/// or a move to the kind's location.
pub open spec fn action_request_spec(id: Seq<char>, kind: ActionKind) -> (HttpMethod, Seq<char>, Option<
    Seq<char>,
>) {
    match kind_location(kind) {
        None => (HttpMethod::Delete, delete_url(id), None),
        Some(loc) => (HttpMethod::Patch, update_url(id), Some(location_body(loc))),
    }
}

pub fn action_request(id: &str, kind: ActionKind) -> (r: ApiRequest)
    ensures
        request_view(r) == action_request_spec(id@, kind),
{
    match kind.location() {
        None => delete_request(id),
        Some(loc) => update_request(id, loc),
    }
}

/// What an answer to an action's request can mean: success, a transport
/// failure, or the action's own error with this id (and location) and a
/// status other than 2xx.
pub open spec fn action_outcome_fits(id: Seq<char>, kind: ActionKind, o: Result<(), ReadwiseError>) -> bool {
    match o {
        Ok(()) => true,
        Err(ReadwiseError::Transport(_)) => true,
        Err(ReadwiseError::Delete { id: i, status }) => kind_location(kind) is None && i@ == id
            && !is_2xx(status),
        Err(ReadwiseError::Update { id: i, loc, status }) => kind_location(kind) == Some(loc@)
            && i@ == id && !is_2xx(status),
        _ => false,
    }
}

/// Judge the answer to an action's request: a transport failure as such, a
/// 2xx status as success, anything else as the action's error.
pub fn action_outcome(id: &str, kind: ActionKind, answer: Result<HttpResponse, HttpError>) -> (r:
    Result<(), ReadwiseError>)
    ensures
        answer matches Err(e) ==> r == Err::<(), ReadwiseError>(ReadwiseError::Transport(e)),
        answer matches Ok(resp) ==> (r is Ok <==> is_2xx(resp.status)),
        answer matches Ok(resp) ==> (r matches Err(ReadwiseError::Delete { status, .. }) ==> status
            == resp.status) && (r matches Err(ReadwiseError::Update { status, .. }) ==> status
            == resp.status),
        action_outcome_fits(id@, kind, r),
{
    match answer {
        Err(e) => Err(ReadwiseError::Transport(e)),
        Ok(resp) => match kind.location() {
            None => status_result(
                resp.status,
                ReadwiseError::Delete { id: string_of(&chars_of(id)), status: resp.status },
            ),
            Some(loc) => status_result(
                resp.status,
                ReadwiseError::Update {
                    id: string_of(&chars_of(id)),
                    loc: string_of(&chars_of(loc)),
                    status: resp.status,
                },
            ),
        },
    }
}

pub open spec fn highlights_outcome_fits(o: Result<(), ReadwiseError>) -> bool {
    match o {
        Ok(()) => true,
        Err(ReadwiseError::Transport(_)) => true,
        Err(ReadwiseError::CreateHighlights { status }) => !is_2xx(status),
        _ => false,
    }
}

/// Judge the answer to the highlights request.
pub fn highlights_outcome(answer: Result<HttpResponse, HttpError>) -> (r: Result<(), ReadwiseError>)
    ensures
        answer matches Err(e) ==> r == Err::<(), ReadwiseError>(ReadwiseError::Transport(e)),
        answer matches Ok(resp) ==> (r is Ok <==> is_2xx(resp.status)),
        answer matches Ok(resp) ==> (r matches Err(ReadwiseError::CreateHighlights { status })
            ==> status == resp.status),
        highlights_outcome_fits(r),
{
    match answer {
        Err(e) => Err(ReadwiseError::Transport(e)),
        Ok(resp) => status_result(resp.status, ReadwiseError::CreateHighlights { status: resp.status }),
    }
}

pub open spec fn is_2xx(status: u16) -> bool {
    200 <= status < 300
}

/// `GET /api/v3/list/` URL for a location and optional page cursor. Pages
/// hold 50 documents (with HTML content).
pub open spec fn list_url_spec(location: Seq<char>, cursor: Option<Seq<char>>) -> Seq<char> {
    let base = "https://readwise.io/api/v3/list/?withHtmlContent=true&limit=50&location="@
        + location;
    match cursor {
        Some(c) => base + "&pageCursor="@ + c,
        None => base,
    }
}

pub fn list_url(location: &str, cursor: Option<&str>) -> (r: String)
    ensures
        r@ == list_url_spec(location@, match cursor {
            Some(c) => Some(c@),
            None => None,
        }),
{
    let mut out: Vec<char> = Vec::new();
    extend_str(&mut out, "https://readwise.io/api/v3/list/?withHtmlContent=true&limit=50&location=");
    extend_str(&mut out, location);
    match cursor {
        Some(c) => {
            extend_str(&mut out, "&pageCursor=");
            extend_str(&mut out, c);
        },
        None => {},
    }
    assert(out@ =~= list_url_spec(location@, match cursor {
        Some(c) => Some(c@),
        None => None,
    }));
    string_of(&out)
}

// ---------------------------------------------------------------------------
// Operations
// ---------------------------------------------------------------------------

/// Create highlights via the classic v2 endpoint. Readwise matches each
/// highlight to a document by `source_url` (+ title/author). Empty input is a
/// no-op that makes no request; otherwise [`highlights_request`] is sent.
pub fn create_highlights<T: HttpTransport + ?Sized>(
    t: &T,
    token: &str,
    items: &[HighlightCreate],
) -> (r: Result<(), ReadwiseError>)
    ensures
        items.len() == 0 ==> (r is Ok),
        r matches Err(ReadwiseError::CreateHighlights { status }) ==> !is_2xx(status),
        r matches Err(e) ==> (e is Transport || e is CreateHighlights),
{
    if items.len() == 0 {
        return Ok(());
    }
    match send(t, token, &highlights_request(items)) {
        Err(e) => Err(ReadwiseError::Transport(e)),
        Ok(resp) => status_result(resp.status, ReadwiseError::CreateHighlights { status: resp.status }),
    }
}

/// `Ok` for a 2xx status, else the given error.
pub fn status_result(status: u16, err: ReadwiseError) -> (r: Result<(), ReadwiseError>)
    ensures
        is_2xx(status) ==> (r is Ok),
        !is_2xx(status) ==> r == Err::<(), ReadwiseError>(err),
{
    if 200 <= status && status < 300 {
        Ok(())
    } else {
        Err(err)
    }
}

/// Move document `id` to location `loc`: sends [`update_request`] and judges
/// the answer with [`status_result`].
pub fn update_location<T: HttpTransport + ?Sized>(
    t: &T,
    token: &str,
    id: &str,
    loc: &str,
) -> (r: Result<(), ReadwiseError>)
    ensures
        r matches Err(ReadwiseError::Update { id: i, loc: l, status }) ==> i@ == id@ && l@ == loc@
            && !is_2xx(status),
        r matches Err(e) ==> (e is Transport || e is Update),
{
    match send(t, token, &update_request(id, loc)) {
        Err(e) => Err(ReadwiseError::Transport(e)),
        Ok(resp) => status_result(
            resp.status,
            ReadwiseError::Update {
                id: string_of(&chars_of(id)),
                loc: string_of(&chars_of(loc)),
                status: resp.status,
            },
        ),
    }
}

/// Delete document `id`: sends [`delete_request`]; Readwise answers 204, and
/// any 2xx is accepted.
pub fn delete_document<T: HttpTransport + ?Sized>(t: &T, token: &str, id: &str) -> (r: Result<
    (),
    ReadwiseError,
>)
    ensures
        r matches Err(ReadwiseError::Delete { id: i, status }) ==> i@ == id@ && !is_2xx(status),
        r matches Err(e) ==> (e is Transport || e is Delete),
{
    match send(t, token, &delete_request(id)) {
        Err(e) => Err(ReadwiseError::Transport(e)),
        Ok(resp) => status_result(
            resp.status,
            ReadwiseError::Delete { id: string_of(&chars_of(id)), status: resp.status },
        ),
    }
}

/// Judge the answer to `GET /api/v2/auth/`: 204 or 200 means the token is valid.
pub fn token_status(status: u16) -> (r: Result<(), ReadwiseError>)
    ensures
        (status == 204 || status == 200) <==> (r is Ok),
        r matches Err(e) ==> (e == ReadwiseError::TokenRejected { status }),
{
    if status == 204 || status == 200 {
        Ok(())
    } else {
        Err(ReadwiseError::TokenRejected { status })
    }
}

/// Validate a token: sends [`auth_request`] and judges the answer with
/// [`token_status`].
pub fn validate_token<T: HttpTransport + ?Sized>(t: &T, token: &str) -> (r: Result<(), ReadwiseError>)
    ensures
        r matches Err(e) ==> (e is Transport || e is TokenRejected),
{
    match send(t, token, &auth_request()) {
        Err(e) => Err(ReadwiseError::Transport(e)),
        Ok(resp) => token_status(resp.status),
    }
}

// ---------------------------------------------------------------------------
// Listing: retries, pagination, merging
// ---------------------------------------------------------------------------

/// 429 (rate limit) and 5xx answers are transient.
pub open spec fn is_transient(status: u16) -> bool {
    status == 429 || (500 <= status <= 599)
}

/// Seconds to wait before retrying a list request, or `None` when the answer
/// is final. At most five retries; `Retry-After` wins, else 60 s after a 429
/// and 3 s after a 5xx.
pub open spec fn retry_wait_spec(status: u16, retry_after: Option<u64>, attempt: u32) -> Option<u64> {
    if is_transient(status) && attempt < 5 {
        Some(
            match retry_after {
                Some(w) => w,
                None => if status == 429 {
                    60
                } else {
                    3
                },
            },
        )
    } else {
        None
    }
}

pub fn retry_wait(status: u16, retry_after: Option<u64>, attempt: u32) -> (r: Option<u64>)
    ensures
        r == retry_wait_spec(status, retry_after, attempt),
{
    let transient = status == 429 || (500 <= status && status <= 599);
    if transient && attempt < 5 {
        match retry_after {
            Some(w) => Some(w),
            None => if status == 429 {
                Some(60)
            } else {
                Some(3)
            },
        }
    } else {
        None
    }
}

pub open spec fn is_digit(c: char) -> bool {
    '0' <= c <= '9'
}

/// The number a run of ASCII digits spells.
pub open spec fn digits_value(s: Seq<char>) -> nat
    decreases s.len(),
{
    if s.len() == 0 {
        0
    } else {
        digits_value(s.drop_last()) * 10 + (s.last() as nat - 48) as nat
    }
}

/// The digits of an unsigned number: without one leading `+`.
pub open spec fn unsigned_digits(s: Seq<char>) -> Seq<char> {
    if s.len() > 0 && s[0] == '+' {
        s.drop_first()
    } else {
        s
    }
}

pub open spec fn all_digits(d: Seq<char>) -> bool {
    forall|i: int| 0 <= i < d.len() ==> is_digit(#[trigger] d[i])
}

/// `str::parse::<u64>`: an optional `+`, then one or more ASCII digits whose
/// value fits in a `u64`.
pub open spec fn parse_u64_spec(s: Seq<char>) -> Option<u64> {
    let d = unsigned_digits(s);
    if d.len() > 0 && all_digits(d) && digits_value(d) <= u64::MAX {
        Some(digits_value(d) as u64)
    } else {
        None
    }
}

proof fn lemma_digits_value_grows(s: Seq<char>, k: int)
    requires
        0 <= k <= s.len(),
        all_digits(s),
    ensures
        digits_value(s.take(k)) <= digits_value(s),
    decreases s.len() - k,
{
    if k < s.len() {
        lemma_digits_value_grows(s, k + 1);
        assert(s.take(k + 1).drop_last() =~= s.take(k));
    } else {
        assert(s.take(k) =~= s);
    }
}

/// A `Retry-After` header's delay in seconds: the trimmed value parsed as a
/// `u64`; `None` when absent or not a number.
pub fn parse_retry_after(header: Option<&str>) -> (r: Option<u64>)
    ensures
        r == (match header {
            Some(h) => parse_u64_spec(trim(h@)),
            None => None,
        }),
{
    let h = match header {
        Some(h) => h,
        None => {
            return None;
        },
    };
    let t = trim_chars(&chars_of(h));
    let start: usize = if t.len() > 0 && t[0] == '+' {
        1
    } else {
        0
    };
    let ghost d = unsigned_digits(t@);
    assert(t@.skip(start as int) =~= d);
    if start >= t.len() {
        return None;
    }
    let mut v: u64 = 0;
    let mut i: usize = start;
    while i < t.len()
        invariant
            start <= i <= t.len(),
            header == Some(h),
            t@ == trim(h@),
            start == 1 <==> (t@.len() > 0 && t@[0] == '+'),
            start <= 1,
            d == t@.skip(start as int),
            d == unsigned_digits(t@),
            forall|j: int| 0 <= j < i - start ==> is_digit(#[trigger] d[j]),
            v == digits_value(d.take(i - start)),
        decreases t.len() - i,
    {
        let c = t[i];
        if !('0' <= c && c <= '9') {
            assert(!is_digit(d[i - start]));
            return None;
        }
        assert(d.take(i - start + 1).drop_last() =~= d.take(i - start));
        let dv: u64 = (c as u32 - 48) as u64;
        match v.checked_mul(10) {
            Some(m) => match m.checked_add(dv) {
                Some(n) => {
                    v = n;
                },
                None => {
                    proof {
                        lemma_overflow_stays(t@, start as int, i as int);
                    }
                    return None;
                },
            },
            None => {
                proof {
                    lemma_overflow_stays(t@, start as int, i as int);
                }
                return None;
            },
        }
        i = i + 1;
    }
    assert(d.take(i - start) =~= d);
    Some(v)
}

/// Once the digits read so far overflow a `u64`, the whole number does.
proof fn lemma_overflow_stays(t: Seq<char>, start: int, i: int)
    requires
        0 <= start <= i < t.len(),
        digits_value(t.skip(start).take(i - start + 1)) > u64::MAX,
        forall|j: int| 0 <= j <= i - start ==> is_digit(#[trigger] t.skip(start)[j]),
    ensures
        !all_digits(t.skip(start)) || digits_value(t.skip(start)) > u64::MAX,
{
    let d = t.skip(start);
    if all_digits(d) {
        lemma_digits_value_grows(d, i - start + 1);
    }
}

/// What to do with one answer to a list request.
#[derive(Debug, Clone, Copy, PartialEq, Eq, Structural)]
pub enum ListStep {
    /// Sleep this many seconds, then send the same request again.
    Retry(u64),
    /// The page is here (status 200).
    Accept,
    /// A final answer other than 200: the listing fails.
    Reject,
}

/// The answer's fate after `attempt` retries: a transient answer is retried
/// (at most five times) after the wait [`retry_wait_spec`] gives; otherwise
/// 200 is accepted and anything else rejected.
pub open spec fn list_step_spec(status: u16, retry_after: Option<u64>, attempt: u32) -> ListStep {
    match retry_wait_spec(status, retry_after, attempt) {
        Some(w) => ListStep::Retry(w),
        None => if status == 200 {
            ListStep::Accept
        } else {
            ListStep::Reject
        },
    }
}

pub fn list_step(status: u16, retry_after: Option<u64>, attempt: u32) -> (r: ListStep)
    ensures
        r == list_step_spec(status, retry_after, attempt),
{
    match retry_wait(status, retry_after, attempt) {
        Some(w) => ListStep::Retry(w),
        None => if status == 200 {
            ListStep::Accept
        } else {
            ListStep::Reject
        },
    }
}

/// A 429 or 5xx answer is retried after the `Retry-After` seconds, else after
/// 60 s (429) or 3 s (5xx), five times at most; then it is final.
pub proof fn list_retry_policy(status: u16, retry_after: Option<u64>, attempt: u32)
    ensures
        is_transient(status) && attempt < 5 ==> list_step_spec(status, retry_after, attempt)
            == ListStep::Retry(
            match retry_after {
                Some(w) => w,
                None => if status == 429 {
                    60u64
                } else {
                    3u64
                },
            },
        ),
        attempt >= 5 || !is_transient(status) ==> list_step_spec(status, retry_after, attempt) == (
        if status == 200 {
            ListStep::Accept
        } else {
            ListStep::Reject
        }),
{
}

/// Request one list page, answering each response as [`list_step`] says:
/// sleeping through `sleep` and resending on a retry, failing on a final
/// answer other than 200.
pub fn request_list_page<T: HttpTransport + ?Sized, S: Fn(u64)>(
    t: &T,
    token: &str,
    location: &str,
    cursor: Option<&str>,
    sleep: &S,
) -> (r: Result<HttpResponse, ReadwiseError>)
    requires
        forall|x: u64| #[trigger] call_requires(*sleep, (x,)),
    ensures
        r matches Ok(resp) ==> resp.status == 200,
        r matches Err(ReadwiseError::List { status, location: l }) ==> status != 200 && l@
            == location@,
        r matches Err(e) ==> (e is Transport || e is List),
{
    let url = list_url(location, cursor);
    let mut attempt: u32 = 0;
    loop
        invariant
            attempt <= 5,
            forall|x: u64| #[trigger] call_requires(*sleep, (x,)),
        decreases 5 - attempt,
    {
        let resp = match t.request(HttpMethod::Get, url.as_str(), token, None) {
            Ok(resp) => resp,
            Err(e) => {
                return Err(ReadwiseError::Transport(e));
            },
        };
        match list_step(resp.status, resp.retry_after, attempt) {
            ListStep::Retry(wait) => {
                sleep(wait);
                attempt = attempt + 1;
            },
            ListStep::Accept => {
                return Ok(resp);
            },
            ListStep::Reject => {
                return Err(
                    ReadwiseError::List {
                        status: resp.status,
                        location: string_of(&chars_of(location)),
                    },
                );
            },
        }
    }
}

/// Cursor of the next page to fetch for the current location: only when the
/// API offered a non-empty cursor and fewer than `max_items` documents were
/// collected for this location so far.
pub fn next_cursor(next: Option<String>, got: usize, max_items: u32) -> (r: Option<String>)
    ensures
        r == (match next {
            Some(c) => if c@.len() > 0 && got < max_items {
                Some(c)
            } else {
                None
            },
            None => None,
        }),
{
    match next {
        Some(c) => {
            if !c.as_str().is_empty() && got < max_items as usize {
                Some(c)
            } else {
                None
            }
        },
        None => None,
    }
}

/// Lexicographic "strictly less" over characters (Rust `String` ordering).
pub open spec fn lex_lt(a: Seq<char>, b: Seq<char>) -> bool
    decreases a.len(),
{
    if b.len() == 0 {
        false
    } else if a.len() == 0 {
        true
    } else if a[0] != b[0] {
        a[0] < b[0]
    } else {
        lex_lt(a.drop_first(), b.drop_first())
    }
}

pub fn chars_lt(a: &[char], b: &[char]) -> (r: bool)
    ensures
        r == lex_lt(a@, b@),
{
    let mut i: usize = 0;
    assert(a@.skip(0) =~= a@ && b@.skip(0) =~= b@);
    while i < a.len() && i < b.len() && a[i] == b[i]
        invariant
            i <= a.len(),
            i <= b.len(),
            lex_lt(a@, b@) == lex_lt(a@.skip(i as int), b@.skip(i as int)),
        decreases a.len() - i,
    {
        assert(a@.skip(i as int).drop_first() =~= a@.skip(i + 1));
        assert(b@.skip(i as int).drop_first() =~= b@.skip(i + 1));
        i = i + 1;
    }
    if i == b.len() {
        false
    } else if i == a.len() {
        true
    } else {
        a[i] < b[i]
    }
}

/// Some document in `s` has this id.
pub open spec fn has_id(s: Seq<Document>, id: Seq<char>) -> bool {
    exists|i: int| 0 <= i < s.len() && (#[trigger] s[i]).id@ == id
}

/// Keep the first document seen for each id, in order.
pub open spec fn dedupe_by_id(s: Seq<Document>) -> Seq<Document>
    decreases s.len(),
{
    if s.len() == 0 {
        s
    } else {
        let p = dedupe_by_id(s.drop_last());
        if has_id(p, s.last().id@) {
            p
        } else {
            p.push(s.last())
        }
    }
}

/// Position at which `d` is inserted into a newest-first sequence: after
/// every document saved at or after it (so equal timestamps keep their order).
pub open spec fn insert_pos(s: Seq<Document>, d: Document) -> nat
    decreases s.len(),
{
    if s.len() == 0 {
        0
    } else if lex_lt(s[0].saved_at@, d.saved_at@) {
        0
    } else {
        1 + insert_pos(s.drop_first(), d)
    }
}

/// Stable sort by `saved_at`, newest first (ISO 8601 sorts lexicographically).
pub open spec fn sort_newest_first(s: Seq<Document>) -> Seq<Document>
    decreases s.len(),
{
    if s.len() == 0 {
        s
    } else {
        let p = sort_newest_first(s.drop_last());
        p.insert(insert_pos(p, s.last()) as int, s.last())
    }
}

/// Deduplicate, sort newest first, keep at most `max_items`.
pub open spec fn merge_spec(all: Seq<Document>, max_items: u32) -> Seq<Document> {
    let sorted = sort_newest_first(dedupe_by_id(all));
    if sorted.len() <= max_items {
        sorted
    } else {
        sorted.take(max_items as int)
    }
}

fn contains_id(seen: &Vec<String>, id: &String) -> (r: bool)
    ensures
        r == (exists|j: int| 0 <= j < seen@.len() && (#[trigger] seen@[j])@ == id@),
{
    let idv = chars_of(id.as_str());
    let mut i: usize = 0;
    while i < seen.len()
        invariant
            i <= seen.len(),
            idv@ == id@,
            forall|j: int| 0 <= j < i ==> (#[trigger] seen@[j])@ != id@,
        decreases seen.len() - i,
    {
        let other = chars_of(seen[i].as_str());
        if crate::text::chars_eq(&other, &idv) {
            return true;
        }
        i = i + 1;
    }
    false
}

proof fn lemma_insert_pos_scan(s: Seq<Document>, d: Document, j: int)
    requires
        0 <= j <= s.len(),
        forall|k: int| 0 <= k < j ==> !lex_lt((#[trigger] s[k]).saved_at@, d.saved_at@),
        j == s.len() || lex_lt(s[j].saved_at@, d.saved_at@),
    ensures
        insert_pos(s, d) == j,
    decreases j,
{
    if j > 0 {
        let t = s.drop_first();
        assert forall|k: int| 0 <= k < j - 1 implies !lex_lt((#[trigger] t[k]).saved_at@, d.saved_at@) by {
            assert(t[k] == s[k + 1]);
        }
        if j < s.len() {
            assert(t[j - 1] == s[j]);
        }
        lemma_insert_pos_scan(t, d, j - 1);
    }
}

fn find_insert_pos(s: &Vec<Document>, d: &Document) -> (r: usize)
    ensures
        r as nat == insert_pos(s@, *d),
        r <= s.len(),
{
    let dv = chars_of(d.saved_at.as_str());
    let mut j: usize = 0;
    while j < s.len()
        invariant
            j <= s.len(),
            dv@ == d.saved_at@,
            forall|k: int| 0 <= k < j ==> !lex_lt((#[trigger] s@[k]).saved_at@, d.saved_at@),
        ensures
            j <= s.len(),
            forall|k: int| 0 <= k < j ==> !lex_lt((#[trigger] s@[k]).saved_at@, d.saved_at@),
            j == s.len() || lex_lt(s@[j as int].saved_at@, d.saved_at@),
        decreases s.len() - j,
    {
        let sv = chars_of(s[j].saved_at.as_str());
        if chars_lt(&sv, &dv) {
            break;
        }
        j = j + 1;
    }
    proof {
        lemma_insert_pos_scan(s@, *d, j as int);
    }
    j
}

/// Merge listed documents: keep the first document of each id, order newest
/// first by `saved_at` (stable), and cap at `max_items`.
pub fn merge_documents(all: Vec<Document>, max_items: u32) -> (r: Vec<Document>)
    ensures
        r@ == merge_spec(all@, max_items),
{
    let ghost input = all@;
    let ghost mut unique: Seq<Document> = Seq::empty();
    let mut seen: Vec<String> = Vec::new();
    let mut sorted: Vec<Document> = Vec::new();
    for d in iter: all
        invariant
            iter.seq() == input,
            unique == dedupe_by_id(input.take(iter.index() as int)),
            seen@.len() == unique.len(),
            forall|k: int| 0 <= k < unique.len() ==> (#[trigger] seen@[k])@ == unique[k].id@,
            sorted@ == sort_newest_first(unique),
    {
        let ghost i = iter.index();
        assert(input.take(i + 1).drop_last() =~= input.take(i as int));
        assert(input.take(i + 1).last() == d);
        let found = contains_id(&seen, &d.id);
        proof {
            if found {
                let j = choose|j: int| 0 <= j < seen@.len() && (#[trigger] seen@[j])@ == d.id@;
                assert(unique[j].id@ == d.id@);
            } else if has_id(unique, d.id@) {
                let j = choose|j: int| 0 <= j < unique.len() && (#[trigger] unique[j]).id@ == d.id@;
                assert(seen@[j]@ == d.id@);
            }
        }
        if !found {
            let ghost u0 = unique;
            let pos = find_insert_pos(&sorted, &d);
            seen.push(d.id.clone());
            proof {
                unique = unique.push(d);
                assert(unique.drop_last() =~= u0);
            }
            sorted.insert(pos, d);
        }
    }
    assert(input.take(input.len() as int) =~= input);
    if sorted.len() > max_items as usize {
        sorted.truncate(max_items as usize);
    }
    sorted
}

// ---------------------------------------------------------------------------
// Laws of the merge
// ---------------------------------------------------------------------------

pub(crate) proof fn lemma_lex_irreflexive(a: Seq<char>)
    ensures
        !lex_lt(a, a),
    decreases a.len(),
{
    if a.len() > 0 {
        lemma_lex_irreflexive(a.drop_first());
    }
}

pub(crate) proof fn lemma_lex_asym(a: Seq<char>, b: Seq<char>)
    requires
        lex_lt(a, b),
    ensures
        !lex_lt(b, a),
    decreases a.len(),
{
    if a.len() > 0 && b.len() > 0 && a[0] == b[0] {
        lemma_lex_asym(a.drop_first(), b.drop_first());
    }
}

pub(crate) proof fn lemma_lex_trans(a: Seq<char>, b: Seq<char>, c: Seq<char>)
    requires
        lex_lt(a, b),
        lex_lt(b, c),
    ensures
        lex_lt(a, c),
    decreases a.len(),
{
    if a.len() > 0 && b.len() > 0 && c.len() > 0 && a[0] == b[0] && b[0] == c[0] {
        lemma_lex_trans(a.drop_first(), b.drop_first(), c.drop_first());
    }
}

pub(crate) proof fn lemma_lex_total(a: Seq<char>, b: Seq<char>)
    requires
        !lex_lt(a, b),
    ensures
        lex_lt(b, a) || a == b,
    decreases a.len(),
{
    if a.len() == 0 {
        assert(b.len() == 0);
        assert(a =~= b);
    } else if b.len() == 0 {
    } else if a[0] != b[0] {
    } else {
        lemma_lex_total(a.drop_first(), b.drop_first());
        if a.drop_first() == b.drop_first() {
            assert(a =~= seq![a[0]] + a.drop_first());
            assert(b =~= seq![b[0]] + b.drop_first());
        }
    }
}

/// Documents are ordered newest first: no document is saved strictly before a
/// later one.
pub open spec fn newest_first(s: Seq<Document>) -> bool {
    forall|i: int, j: int|
        0 <= i < j < s.len() ==> !lex_lt(#[trigger] s[i].saved_at@, #[trigger] s[j].saved_at@)
}

/// No two documents share an id.
pub open spec fn ids_distinct(s: Seq<Document>) -> bool {
    forall|i: int, j: int| 0 <= i < j < s.len() ==> #[trigger] s[i].id@ != #[trigger] s[j].id@
}

proof fn lemma_insert_pos_props(s: Seq<Document>, d: Document)
    ensures
        insert_pos(s, d) <= s.len(),
        forall|k: int| 0 <= k < insert_pos(s, d) ==> !lex_lt((#[trigger] s[k]).saved_at@, d.saved_at@),
        insert_pos(s, d) < s.len() ==> lex_lt(s[insert_pos(s, d) as int].saved_at@, d.saved_at@),
    decreases s.len(),
{
    if s.len() > 0 && !lex_lt(s[0].saved_at@, d.saved_at@) {
        let t = s.drop_first();
        lemma_insert_pos_props(t, d);
        assert forall|k: int| 0 <= k < insert_pos(s, d) implies !lex_lt(
            (#[trigger] s[k]).saved_at@,
            d.saved_at@,
        ) by {
            if k > 0 {
                assert(s[k] == t[k - 1]);
            }
        }
        if insert_pos(s, d) < s.len() {
            assert(s[insert_pos(s, d) as int] == t[insert_pos(t, d) as int]);
        }
    }
}

#[verifier::rlimit(40)]
proof fn lemma_insert_newest_first(p: Seq<Document>, d: Document)
    requires
        newest_first(p),
    ensures
        newest_first(p.insert(insert_pos(p, d) as int, d)),
{
    lemma_insert_pos_props(p, d);
    let pos = insert_pos(p, d) as int;
    let q = p.insert(pos, d);
    p.insert_ensures(pos, d);
    assert forall|i: int, j: int| 0 <= i < j < q.len() implies !lex_lt(
        #[trigger] q[i].saved_at@,
        #[trigger] q[j].saved_at@,
    ) by {
        if j < pos {
            assert(q[i] == p[i] && q[j] == p[j]);
        } else if i > pos {
            assert(q[i] == p[i - 1] && q[j] == p[j - 1]);
        } else if j == pos {
            assert(q[i] == p[i]);
        } else if i < pos {
            assert(q[i] == p[i] && q[j] == p[j - 1]);
        } else {
            // i == pos < j: p[pos] < d and p[pos] >= p[j - 1].
            assert(q[j] == p[j - 1]);
            let a = p[pos].saved_at@;
            let c = p[j - 1].saved_at@;
            let b = d.saved_at@;
            if j - 1 > pos {
                assert(!lex_lt(a, c));
                lemma_lex_total(a, c);
                if lex_lt(c, a) {
                    lemma_lex_trans(c, a, b);
                }
            }
            lemma_lex_asym(c, b);
        }
    }
}

proof fn lemma_sort_newest_first(s: Seq<Document>)
    ensures
        newest_first(sort_newest_first(s)),
        sort_newest_first(s).to_multiset() == s.to_multiset(),
        sort_newest_first(s).len() == s.len(),
    decreases s.len(),
{
    if s.len() > 0 {
        let p = sort_newest_first(s.drop_last());
        let d = s.last();
        lemma_sort_newest_first(s.drop_last());
        lemma_insert_pos_props(p, d);
        let pos = insert_pos(p, d) as int;
        lemma_insert_newest_first(p, d);
        vstd::seq_lib::to_multiset_insert(p, pos, d);
        vstd::seq_lib::to_multiset_build(s.drop_last(), d);
        assert(s =~= s.drop_last().push(d));
    }
}

proof fn lemma_has_id_multiset(a: Seq<Document>, b: Seq<Document>, id: Seq<char>)
    requires
        a.to_multiset() == b.to_multiset(),
        has_id(a, id),
    ensures
        has_id(b, id),
{
    broadcast use vstd::seq_lib::to_multiset_contains;

    let i = choose|i: int| 0 <= i < a.len() && (#[trigger] a[i]).id@ == id;
    assert(a.contains(a[i]));
    assert(a.to_multiset().count(a[i]) > 0);
    assert(b.to_multiset().count(a[i]) > 0);
    assert(b.contains(a[i]));
    let j = choose|j: int| 0 <= j < b.len() && b[j] == a[i];
    assert(b[j].id@ == id);
}

proof fn lemma_dedupe_sorted_distinct(s: Seq<Document>)
    ensures
        ids_distinct(dedupe_by_id(s)),
        ids_distinct(sort_newest_first(dedupe_by_id(s))),
        dedupe_by_id(s).len() <= s.len(),
        forall|x: Document| dedupe_by_id(s).contains(x) ==> s.contains(x),
    decreases s.len(),
{
    if s.len() > 0 {
        let u0 = dedupe_by_id(s.drop_last());
        let d = s.last();
        lemma_dedupe_sorted_distinct(s.drop_last());
        assert forall|x: Document| dedupe_by_id(s).contains(x) implies s.contains(x) by {
            if u0.contains(x) {
                assert(s.drop_last().contains(x));
                let k = choose|k: int| 0 <= k < s.drop_last().len() && s.drop_last()[k] == x;
                assert(s[k] == x);
            } else {
                assert(x == d);
                assert(s[s.len() - 1] == x);
            }
        }
        if !has_id(u0, d.id@) {
            let u = u0.push(d);
            assert forall|i: int, j: int| 0 <= i < j < u.len() implies #[trigger] u[i].id@
                != #[trigger] u[j].id@ by {
                if j == u.len() - 1 {
                    assert(u[i] == u0[i]);
                    if u[i].id@ == d.id@ {
                        assert(has_id(u0, d.id@));
                    }
                }
            }
            let p = sort_newest_first(u0);
            lemma_sort_newest_first(u0);
            lemma_insert_pos_props(p, d);
            let pos = insert_pos(p, d) as int;
            let q = p.insert(pos, d);
            p.insert_ensures(pos, d);
            assert(u =~= u.drop_last().push(d));
            assert(u.drop_last() =~= u0);
            assert(!has_id(p, d.id@)) by {
                if has_id(p, d.id@) {
                    lemma_has_id_multiset(p, u0, d.id@);
                }
            }
            assert forall|i: int, j: int| 0 <= i < j < q.len() implies #[trigger] q[i].id@
                != #[trigger] q[j].id@ by {
                if j < pos {
                    assert(q[i] == p[i] && q[j] == p[j]);
                } else if i > pos {
                    assert(q[i] == p[i - 1] && q[j] == p[j - 1]);
                } else if j == pos {
                    assert(q[i] == p[i]);
                } else if i < pos {
                    assert(q[i] == p[i] && q[j] == p[j - 1]);
                } else {
                    assert(q[j] == p[j - 1]);
                }
            }
        }
    }
}

/// The merged listing holds each id at most once, is ordered newest first,
/// holds at most `max_items` documents, and only documents that were listed.
pub proof fn merge_documents_laws(all: Seq<Document>, max_items: u32)
    ensures
        ids_distinct(merge_spec(all, max_items)),
        newest_first(merge_spec(all, max_items)),
        merge_spec(all, max_items).len() <= max_items,
        merge_spec(all, max_items).len() <= all.len(),
        forall|x: Document| merge_spec(all, max_items).contains(x) ==> all.contains(x),
{
    broadcast use vstd::seq_lib::to_multiset_contains;

    let u = dedupe_by_id(all);
    lemma_dedupe_sorted_distinct(all);
    lemma_sort_newest_first(u);
    let sorted = sort_newest_first(u);
    let m = merge_spec(all, max_items);
    assert forall|x: Document| m.contains(x) implies all.contains(x) by {
        let k = choose|k: int| 0 <= k < m.len() && m[k] == x;
        assert(sorted[k] == x);
        assert(sorted.contains(x));
        assert(sorted.to_multiset().count(x) > 0);
        assert(u.to_multiset().count(x) > 0);
        assert(u.contains(x));
    }
    assert forall|i: int, j: int| 0 <= i < j < m.len() implies #[trigger] m[i].id@
        != #[trigger] m[j].id@ by {
        assert(m[i] == sorted[i] && m[j] == sorted[j]);
    }
    assert forall|i: int, j: int| 0 <= i < j < m.len() implies !lex_lt(
        #[trigger] m[i].saved_at@,
        #[trigger] m[j].saved_at@,
    ) by {
        assert(m[i] == sorted[i] && m[j] == sorted[j]);
    }
}

} // verus!
