//! Turn Readwise `html_content` into render-ready HTML with embedded local
//! images: size cap, image URL collection, asset keys, sanitising.
use lol_html::html_content::Element;
use lol_html::{rewrite_str, ElementContentHandlers, RewriteStrSettings};
use std::borrow::Cow;
use std::cell::RefCell;
use vstd::prelude::*;
use vstd::utf8::encode_utf8;

use crate::text::{
    char_is_ascii_alnum, chars_of, extend_str, is_ascii_alnum, push_decimal, decimal, starts_with,
    str_eq, str_starts_with, string_of,
};

verus! {

// ---------------------------------------------------------------------------
// Tag stripping
// ---------------------------------------------------------------------------

/// Left fold over `s`: text kept so far, and whether we are inside a tag.
pub open spec fn strip_state(s: Seq<char>) -> (Seq<char>, bool)
    decreases s.len(),
{
    if s.len() == 0 {
        (Seq::empty(), false)
    } else {
        let (o, in_tag) = strip_state(s.drop_last());
        let c = s.last();
        if in_tag {
            (o, c != '>')
        } else if c == '<' {
            (o, true)
        } else {
            (o.push(c), false)
        }
    }
}

/// The text of an HTML snippet: everything from a `<` up to the next `>` is
/// dropped.
pub open spec fn strip_tags_spec(s: Seq<char>) -> Seq<char> {
    strip_state(s).0
}

/// The text of an HTML snippet, tags removed.
pub fn strip_tags(s: &str) -> (r: String)
    ensures
        r@ == strip_tags_spec(s@),
{
    let mut out: Vec<char> = Vec::new();
    let mut in_tag = false;
    let mut i: usize = 0;
    let cs = crate::text::chars_of(s);
    while i < cs.len()
        invariant
            i <= cs.len(),
            cs@ == s@,
            (out@, in_tag) == strip_state(cs@.take(i as int)),
        decreases cs.len() - i,
    {
        let c = cs[i];
        proof {
            assert(cs@.take(i + 1).drop_last() =~= cs@.take(i as int));
        }
        if in_tag {
            in_tag = c != '>';
        } else if c == '<' {
            in_tag = true;
        } else {
            out.push(c);
        }
        i = i + 1;
    }
    assert(cs@.take(cs.len() as int) =~= cs@);
    crate::text::string_of(&out)
}

// ---------------------------------------------------------------------------
// Types
// ---------------------------------------------------------------------------

#[derive(Debug, Clone)]
pub struct FetchedImage {
    pub bytes: Vec<u8>,
    /// `png`, `jpg`, `gif`, `svg`, `webp` or `bin`, from the content type.
    pub ext: String,
}

/// Network seam for images.
pub trait ImageFetcher {
    fn fetch(&self, url: &str) -> Option<FetchedImage>;

    /// Fetch several URLs, one answer per URL, in the same order.
    fn fetch_many(&self, urls: &[String]) -> (r: Vec<Option<FetchedImage>>)
        default_ensures
            r@.len() == urls@.len(),
    {
        let mut out: Vec<Option<FetchedImage>> = Vec::new();
        let mut i: usize = 0;
        while i < urls.len()
            invariant
                i <= urls.len(),
                out@.len() == i,
            decreases urls.len() - i,
        {
            out.push(self.fetch(urls[i].as_str()));
            i = i + 1;
        }
        out
    }
}

pub struct Processed {
    pub html: String,
    /// `(asset key, bytes)` per embedded image.
    pub assets: Vec<(String, Vec<u8>)>,
}

// ---------------------------------------------------------------------------
// Asset keys
// ---------------------------------------------------------------------------

pub open spec fn safe_char(c: char) -> char {
    if is_ascii_alnum(c) || c == '-' || c == '_' {
        c
    } else {
        '-'
    }
}

/// The doc id made filename-safe: anything but ASCII alphanumerics, `-` and
/// `_` becomes `-`.
pub open spec fn safe_id_spec(id: Seq<char>) -> Seq<char> {
    id.map_values(|c: char| safe_char(c))
}

pub fn safe_id(id: &str) -> (r: Vec<char>)
    ensures
        r@ == safe_id_spec(id@),
{
    let cs = chars_of(id);
    let mut r: Vec<char> = Vec::new();
    let mut i: usize = 0;
    while i < cs.len()
        invariant
            i <= cs.len(),
            cs@ == id@,
            r@ == cs@.take(i as int).map_values(|c: char| safe_char(c)),
        decreases cs.len() - i,
    {
        let c = cs[i];
        if char_is_ascii_alnum(c) || c == '-' || c == '_' {
            r.push(c);
        } else {
            r.push('-');
        }
        i = i + 1;
        assert(cs@.take(i as int).map_values(|c: char| safe_char(c)) =~= cs@.take(i - 1).map_values(
            |c: char| safe_char(c),
        ).push(safe_char(c)));
    }
    assert(cs@.take(cs.len() as int) =~= cs@);
    r
}

/// `img-{safe_id}-{i}.{ext}`: the doc id keeps keys unique when assets of
/// several documents share one bundle.
pub open spec fn asset_key_spec(id: Seq<char>, i: nat, ext: Seq<char>) -> Seq<char> {
    "img-"@ + safe_id_spec(id) + "-"@ + decimal(i) + "."@ + ext
}

proof fn lemma_decimal_no_dash(n: nat)
    ensures
        forall|k: int| 0 <= k < decimal(n).len() ==> decimal(n)[k] != '-',
    decreases n,
{
    if n >= 10 {
        lemma_decimal_no_dash(n / 10);
        assert forall|k: int| 0 <= k < decimal(n).len() implies decimal(n)[k] != '-' by {
            if k < decimal(n / 10).len() {
                assert(decimal(n)[k] == decimal(n / 10)[k]);
            }
        }
    }
}

/// `x` ends at the last `-` of `x + "-" + y` when `y` holds none.
proof fn lemma_split_at_last_dash(x: Seq<char>, y: Seq<char>, x2: Seq<char>, y2: Seq<char>)
    requires
        x + seq!['-'] + y == x2 + seq!['-'] + y2,
        forall|k: int| 0 <= k < y.len() ==> y[k] != '-',
        forall|k: int| 0 <= k < y2.len() ==> y2[k] != '-',
    ensures
        x == x2,
{
    let xd = x + seq!['-'];
    let xd2 = x2 + seq!['-'];
    let s = xd + y;
    let s2 = xd2 + y2;
    assert(s == s2);
    if x.len() < x2.len() {
        let k = x2.len() as int;
        assert(s2[k] == xd2[k]);
        assert(xd2[k] == '-');
        assert(k >= xd.len());
        assert(s[k] == y[k - xd.len()]);
    } else if x2.len() < x.len() {
        let k = x.len() as int;
        assert(s[k] == xd[k]);
        assert(xd[k] == '-');
        assert(k >= xd2.len());
        assert(s2[k] == y2[k - xd2.len()]);
    } else {
        assert(x =~= s.take(x.len() as int));
        assert(x2 =~= s2.take(x2.len() as int));
    }
}

/// Asset keys never collide across documents whose filename-safe ids
/// differ, whatever the image positions, as long as the extensions hold no
/// `-` (every extension the library produces): merging the assets of several
/// documents into one bundle never overwrites one with another.
pub proof fn asset_keys_distinguish_documents(
    a: Seq<char>,
    b: Seq<char>,
    i: nat,
    j: nat,
    ext_a: Seq<char>,
    ext_b: Seq<char>,
)
    requires
        safe_id_spec(a) != safe_id_spec(b),
        forall|k: int| 0 <= k < ext_a.len() ==> ext_a[k] != '-',
        forall|k: int| 0 <= k < ext_b.len() ==> ext_b[k] != '-',
    ensures
        asset_key_spec(a, i, ext_a) != asset_key_spec(b, j, ext_b),
{
    reveal_strlit("img-");
    reveal_strlit("-");
    reveal_strlit(".");
    lemma_decimal_no_dash(i);
    lemma_decimal_no_dash(j);
    let ta = decimal(i) + "."@ + ext_a;
    let tb = decimal(j) + "."@ + ext_b;
    assert forall|k: int| 0 <= k < ta.len() implies ta[k] != '-' by {
        if k >= decimal(i).len() + 1 {
            assert(ta[k] == ext_a[k - decimal(i).len() - 1]);
        } else if k < decimal(i).len() {
            assert(ta[k] == decimal(i)[k]);
        }
    }
    assert forall|k: int| 0 <= k < tb.len() implies tb[k] != '-' by {
        if k >= decimal(j).len() + 1 {
            assert(tb[k] == ext_b[k - decimal(j).len() - 1]);
        } else if k < decimal(j).len() {
            assert(tb[k] == decimal(j)[k]);
        }
    }
    let xa = "img-"@ + safe_id_spec(a);
    let xb = "img-"@ + safe_id_spec(b);
    assert(asset_key_spec(a, i, ext_a) =~= xa + seq!['-'] + ta);
    assert(asset_key_spec(b, j, ext_b) =~= xb + seq!['-'] + tb);
    if asset_key_spec(a, i, ext_a) == asset_key_spec(b, j, ext_b) {
        lemma_split_at_last_dash(xa, ta, xb, tb);
        assert(safe_id_spec(a) =~= xa.skip(4));
        assert(safe_id_spec(b) =~= xb.skip(4));
    }
}

pub fn asset_key(id: &str, i: usize, ext: &str) -> (r: String)
    ensures
        r@ == asset_key_spec(id@, i as nat, ext@),
{
    let mut v: Vec<char> = Vec::new();
    extend_str(&mut v, "img-");
    let sid = safe_id(id);
    crate::text::extend_chars(&mut v, &sid);
    extend_str(&mut v, "-");
    push_decimal(&mut v, i as u64);
    extend_str(&mut v, ".");
    extend_str(&mut v, ext);
    assert(v@ =~= asset_key_spec(id@, i as nat, ext@));
    string_of(&v)
}

// ---------------------------------------------------------------------------
// Size cap
// ---------------------------------------------------------------------------

/// The largest char boundary of `bytes` at or below `max`.
pub open spec fn cut_point(bytes: Seq<u8>, max: int) -> int
    decreases max,
{
    if max <= 0 || vstd::utf8::is_char_boundary(bytes, max) {
        if max <= 0 {
            0
        } else {
            max
        }
    } else {
        cut_point(bytes, max - 1)
    }
}

/// A cut is never past `max` (nor below 0), and it falls on a char boundary.
pub proof fn cut_point_fits(bytes: Seq<u8>, max: int)
    ensures
        0 <= cut_point(bytes, max),
        max >= 0 ==> cut_point(bytes, max) <= max,
        cut_point(bytes, max) > 0 ==> vstd::utf8::is_char_boundary(bytes, cut_point(bytes, max)),
    decreases max,
{
    if !(max <= 0 || vstd::utf8::is_char_boundary(bytes, max)) {
        cut_point_fits(bytes, max - 1);
    }
}

/// `html` cut to at most `max_bytes` UTF-8 bytes on a char boundary, and
/// whether it was cut.
pub fn truncate_html(html: &str, max_bytes: usize) -> (r: (String, bool))
    ensures
        r.1 == (html.len() > max_bytes),
        !r.1 ==> r.0@ == html@,
        r.1 ==> encode_utf8(r.0@) == encode_utf8(html@).take(cut_point(encode_utf8(html@), max_bytes as int)),
        r.1 ==> encode_utf8(r.0@).len() <= max_bytes,
{
    proof {
        cut_point_fits(encode_utf8(html@), max_bytes as int);
    }
    if html.len() > max_bytes {
        let mut end = max_bytes;
        while end > 0 && !html.is_char_boundary(end)
            invariant
                end <= max_bytes,
                cut_point(encode_utf8(html@), end as int) == cut_point(encode_utf8(html@), max_bytes as int),
            decreases end,
        {
            end = end - 1;
        }
        proof {
            vstd::utf8::encode_utf8_valid_utf8(html@);
        }
        let (head, _tail) = html.split_at(end);
        assert(encode_utf8(html@).subrange(0, end as int) =~= encode_utf8(html@).take(end as int));
        (head.to_owned(), true)
    } else {
        (html.to_owned(), false)
    }
}

// ---------------------------------------------------------------------------
// Rewriting
// ---------------------------------------------------------------------------

/// What the rewriter does to one element.
pub struct ElementEdit {
    /// Drop the element and its content.
    pub remove: bool,
    /// New `src` value.
    pub new_src: Option<String>,
    /// Attributes to remove.
    pub drop_attrs: Vec<String>,
    /// The `src` of an `<img>`, for URL collection.
    pub seen_src: Option<String>,
}

/// Elements the sanitiser removes with their content.
pub open spec fn removed_tag(t: Seq<char>) -> bool {
    t == "script"@ || t == "iframe"@ || t == "noscript"@ || t == "style"@ || t == "object"@ || t
        == "embed"@ || t == "form"@
}

/// Attributes the sanitiser strips: event handlers (`on*`), inline styles and
/// legacy presentational attributes.
pub open spec fn stripped_attr(n: Seq<char>) -> bool {
    starts_with(n, "on"@) || n == "style"@ || n == "align"@ || n == "valign"@ || n == "bgcolor"@
        || n == "background"@ || n == "border"@ || n == "cellpadding"@ || n == "cellspacing"@ || n
        == "color"@ || n == "face"@ || n == "width"@ || n == "height"@
}

fn is_removed_tag(t: &str) -> (r: bool)
    ensures
        r == removed_tag(t@),
{
    str_eq(t, "script") || str_eq(t, "iframe") || str_eq(t, "noscript") || str_eq(t, "style")
        || str_eq(t, "object") || str_eq(t, "embed") || str_eq(t, "form")
}

fn is_stripped_attr(n: &str) -> (r: bool)
    ensures
        r == stripped_attr(n@),
{
    str_starts_with(n, "on") || str_eq(n, "style") || str_eq(n, "align") || str_eq(n, "valign")
        || str_eq(n, "bgcolor") || str_eq(n, "background") || str_eq(n, "border") || str_eq(
        n,
        "cellpadding",
    ) || str_eq(n, "cellspacing") || str_eq(n, "color") || str_eq(n, "face") || str_eq(n, "width")
        || str_eq(n, "height")
}

pub open spec fn stripped_names(names: Seq<Seq<char>>) -> Seq<Seq<char>>
    decreases names.len(),
{
    if names.len() == 0 {
        Seq::empty()
    } else if stripped_attr(names.last()) {
        stripped_names(names.drop_last()).push(names.last())
    } else {
        stripped_names(names.drop_last())
    }
}

/// The key recorded for `url`: the first entry with that URL.
pub open spec fn key_lookup(keys: Seq<(Seq<char>, Seq<char>)>, url: Seq<char>) -> Option<Seq<char>>
    decreases keys.len(),
{
    if keys.len() == 0 {
        None
    } else if keys[0].0 == url {
        Some(keys[0].1)
    } else {
        key_lookup(keys.drop_first(), url)
    }
}

pub open spec fn opt_string(o: Option<String>) -> Option<Seq<char>> {
    match o {
        Some(s) => Some(s@),
        None => None,
    }
}

pub open spec fn opt_str(o: Option<&str>) -> Option<Seq<char>> {
    match o {
        Some(s) => Some(s@),
        None => None,
    }
}

pub open spec fn strs_view(v: Seq<String>) -> Seq<Seq<char>> {
    v.map_values(|s: String| s@)
}

pub open spec fn pairs_view(v: Seq<(String, String)>) -> Seq<(Seq<char>, Seq<char>)> {
    v.map_values(|p: (String, String)| (p.0@, p.1@))
}

/// The edit for an element `tag` with `src` and attribute `names`: whether it
/// goes (with its content), its new `src`, the attributes it loses, and the
/// `<img>` source it shows. Without `sanitize` nothing changes. With it:
/// removed tags go; an `<img>` whose source has a key gets that key as `src`,
/// any other `<img>` goes; stripped attributes of kept elements go.
pub open spec fn edit_spec(
    tag: Seq<char>,
    src: Option<Seq<char>>,
    names: Seq<Seq<char>>,
    keys: Seq<(Seq<char>, Seq<char>)>,
    sanitize: bool,
) -> (bool, Option<Seq<char>>, Seq<Seq<char>>, Option<Seq<char>>) {
    let seen = if tag == "img"@ {
        src
    } else {
        None
    };
    if !sanitize {
        (false, None, Seq::empty(), seen)
    } else if removed_tag(tag) {
        (true, None, Seq::empty(), seen)
    } else if tag == "img"@ {
        match src {
            Some(u) => match key_lookup(keys, u) {
                Some(k) => (false, Some(k), stripped_names(names), seen),
                None => (true, None, Seq::empty(), seen),
            },
            None => (true, None, Seq::empty(), seen),
        }
    } else {
        (false, None, stripped_names(names), seen)
    }
}

fn lookup_key(keys: &[(String, String)], url: &str) -> (r: Option<String>)
    ensures
        opt_string(r) == key_lookup(pairs_view(keys@), url@),
{
    let ghost ks = pairs_view(keys@);
    let mut i: usize = 0;
    assert(ks.skip(0) =~= ks);
    while i < keys.len()
        invariant
            i <= keys.len(),
            ks == pairs_view(keys@),
            key_lookup(ks, url@) == key_lookup(ks.skip(i as int), url@),
        decreases keys.len() - i,
    {
        assert(ks.skip(i as int)[0] == ks[i as int]);
        assert(ks.skip(i as int).drop_first() =~= ks.skip(i + 1));
        if str_eq(keys[i].0.as_str(), url) {
            return Some(string_of(&chars_of(keys[i].1.as_str())));
        }
        i = i + 1;
    }
    None
}

pub fn element_edit(
    tag: &str,
    src: Option<&str>,
    names: &[String],
    keys: &[(String, String)],
    sanitize: bool,
) -> (e: ElementEdit)
    ensures
        (e.remove, opt_string(e.new_src), strs_view(e.drop_attrs@), opt_string(e.seen_src))
            == edit_spec(tag@, opt_str(src), strs_view(names@), pairs_view(keys@), sanitize),
{
    proof {
        reveal_strlit("img");
    }
    let is_img = str_eq(tag, "img");
    let seen_src = if is_img {
        match src {
            Some(u) => Some(string_of(&chars_of(u))),
            None => None,
        }
    } else {
        None
    };
    let mut drop_attrs: Vec<String> = Vec::new();
    if !sanitize {
        assert(strs_view(drop_attrs@) =~= Seq::<Seq<char>>::empty());
        return ElementEdit { remove: false, new_src: None, drop_attrs, seen_src };
    }
    if is_removed_tag(tag) {
        assert(strs_view(drop_attrs@) =~= Seq::<Seq<char>>::empty());
        return ElementEdit { remove: true, new_src: None, drop_attrs, seen_src };
    }
    let mut new_src: Option<String> = None;
    if is_img {
        match src {
            Some(u) => match lookup_key(keys, u) {
                Some(k) => {
                    new_src = Some(k);
                },
                None => {
                    assert(strs_view(drop_attrs@) =~= Seq::<Seq<char>>::empty());
                    return ElementEdit { remove: true, new_src: None, drop_attrs, seen_src };
                },
            },
            None => {
                assert(strs_view(drop_attrs@) =~= Seq::<Seq<char>>::empty());
                return ElementEdit { remove: true, new_src: None, drop_attrs, seen_src };
            },
        }
    }
    let ghost nv = strs_view(names@);
    let mut i: usize = 0;
    while i < names.len()
        invariant
            i <= names.len(),
            nv == strs_view(names@),
            strs_view(drop_attrs@) == stripped_names(nv.take(i as int)),
        decreases names.len() - i,
    {
        proof {
            assert(nv.take(i + 1).drop_last() =~= nv.take(i as int));
            assert(nv.take(i + 1).last() == names@[i as int]@);
        }
        if is_stripped_attr(names[i].as_str()) {
            drop_attrs.push(string_of(&chars_of(names[i].as_str())));
            assert(strs_view(drop_attrs@) =~= stripped_names(nv.take(i as int)).push(
                names@[i as int]@,
            ));
        }
        i = i + 1;
    }
    assert(nv.take(names.len() as int) =~= nv);
    ElementEdit { remove: false, new_src, drop_attrs, seen_src }
}

/// `(url, asset key)` pairs.
pub type KeyTable = [(String, String)];

/// The element type of `lol_html`'s rewriter, carried through opaquely.
#[verifier::external_type_specification]
#[verifier::external_body]
pub struct ExElement<'r, 't>(Element<'r, 't>);

/// One element as the rewriter meets it: tag name, `src`, attribute names.
pub struct ElementInfo {
    pub tag: String,
    pub src: Option<String>,
    pub attrs: Vec<String>,
}

pub open spec fn info_view(e: ElementInfo) -> (Seq<char>, Option<Seq<char>>, Seq<Seq<char>>) {
    (e.tag@, opt_string(e.src), strs_view(e.attrs@))
}

pub open spec fn infos_view(v: Seq<ElementInfo>) -> Seq<(Seq<char>, Option<Seq<char>>, Seq<Seq<char>>)> {
    v.map_values(|e: ElementInfo| info_view(e))
}

/// The elements of `html`, in the order `lol_html::rewrite_str` hands them
/// to a handler registered for every element (`*`): tag name, `src`, and the
/// attribute names.
pub uninterp spec fn html_elements(html: Seq<char>) -> Seq<(Seq<char>, Option<Seq<char>>, Seq<Seq<char>>)>;

/// Runs `lol_html::rewrite_str` over `html` with a handler on every element
/// that records its tag name, `src` and attribute names, and returns those
/// records. Claims that they are a function of the text alone.
#[verifier::external_body]
fn scan_elements(html: &str) -> (r: Vec<ElementInfo>)
    ensures
        infos_view(r@) == html_elements(html@),
{
    let found = RefCell::new(Vec::new());
    let _ = rewrite_str(html, RewriteStrSettings { element_content_handlers: vec![(Cow::Owned("*".parse().unwrap()), ElementContentHandlers::default().element(|el| {
        found.borrow_mut().push(ElementInfo { tag: el.tag_name(), src: el.get_attribute("src"), attrs: el.attributes().iter().map(|a| a.name()).collect() });
        Ok(())
    }))], ..Default::default() });
    found.into_inner()
}

/// What is done to one element: removed (with its content), `src` set,
/// attributes removed.
pub open spec fn edit_view(e: ElementEdit) -> (bool, Option<Seq<char>>, Seq<Seq<char>>) {
    (e.remove, opt_string(e.new_src), strs_view(e.drop_attrs@))
}

pub open spec fn edits_view(v: Seq<ElementEdit>) -> Seq<(bool, Option<Seq<char>>, Seq<Seq<char>>)> {
    v.map_values(|e: ElementEdit| edit_view(e))
}

/// The text `lol_html::rewrite_str` makes of `html` when the `k`-th element
/// handed to a handler on `*` (the `k`-th of [`html_elements`]) gets
/// `edits[k]`: removed with its content when the flag is set, its `src` set,
/// the listed attributes removed. `None` when rewriting fails.
pub uninterp spec fn edited(
    html: Seq<char>,
    edits: Seq<(bool, Option<Seq<char>>, Seq<Seq<char>>)>,
) -> Option<Seq<char>>;

/// Runs `lol_html::rewrite_str` over `html` with a handler on every element
/// that hands the element and the next of `edits` to [`apply_edit`]; the
/// rewritten text, `None` when rewriting fails.
#[verifier::external_body]
fn apply_edits(html: &str, edits: &[ElementEdit]) -> (r: Option<String>)
    ensures
        opt_string(r) == edited(html@, edits_view(edits@)),
{
    let next = RefCell::new(edits.iter());
    rewrite_str(html, RewriteStrSettings { element_content_handlers: vec![(Cow::Owned("*".parse().unwrap()), ElementContentHandlers::default().element(|el| {
        apply_edit(el, next.borrow_mut().next());
        Ok(())
    }))], ..Default::default() }).ok()
}

/// `Element::remove`: the element and its content leave the output.
#[verifier::external_body]
fn remove_element(el: &mut Element) {
    el.remove()
}

/// `Element::set_attribute("src", value)`; `src` is a valid attribute name,
/// so the call cannot fail.
#[verifier::external_body]
fn set_src(el: &mut Element, value: &str) {
    let _ = el.set_attribute("src", value);
}

/// `Element::remove_attribute`.
#[verifier::external_body]
fn remove_attribute(el: &mut Element, name: &str) {
    el.remove_attribute(name)
}

/// Carry out an edit on the element the rewriter is at.
fn apply_edit(el: &mut Element, edit: Option<&ElementEdit>) {
    match edit {
        None => {},
        Some(e) => {
            if e.remove {
                remove_element(el);
            }
            match &e.new_src {
                Some(k) => set_src(el, k.as_str()),
                None => {},
            }
            let mut i: usize = 0;
            while i < e.drop_attrs.len()
                invariant
                    i <= e.drop_attrs.len(),
                decreases e.drop_attrs.len() - i,
            {
                remove_attribute(el, e.drop_attrs[i].as_str());
                i = i + 1;
            }
        },
    }
}

/// The edits the sanitiser makes to each element, in order.
pub open spec fn planned_edits(
    elements: Seq<(Seq<char>, Option<Seq<char>>, Seq<Seq<char>>)>,
    keys: Seq<(Seq<char>, Seq<char>)>,
) -> Seq<(bool, Option<Seq<char>>, Seq<Seq<char>>)> {
    elements.map_values(
        |x: (Seq<char>, Option<Seq<char>>, Seq<Seq<char>>)|
            {
                let e = edit_spec(x.0, x.1, x.2, keys, true);
                (e.0, e.1, e.2)
            },
    )
}

/// The `<img>` sources among `elements`, in order.
pub open spec fn img_sources(elements: Seq<(Seq<char>, Option<Seq<char>>, Seq<Seq<char>>)>) -> Seq<
    Seq<char>,
>
    decreases elements.len(),
{
    if elements.len() == 0 {
        Seq::empty()
    } else {
        let x = elements.last();
        match edit_spec(x.0, x.1, x.2, Seq::empty(), false).3 {
            Some(u) => img_sources(elements.drop_last()).push(u),
            None => img_sources(elements.drop_last()),
        }
    }
}

/// The sanitiser's edit for each element of `infos`, in order.
fn sanitising_edits(infos: &Vec<ElementInfo>, keys: &[(String, String)]) -> (r: Vec<ElementEdit>)
    ensures
        edits_view(r@) == planned_edits(infos_view(infos@), pairs_view(keys@)),
{
    let mut r: Vec<ElementEdit> = Vec::new();
    let mut i: usize = 0;
    while i < infos.len()
        invariant
            i <= infos.len(),
            r@.len() == i,
            forall|k: int|
                0 <= k < i ==> edit_view(#[trigger] r@[k]) == planned_edits(
                    infos_view(infos@),
                    pairs_view(keys@),
                )[k],
        decreases infos.len() - i,
    {
        let info = &infos[i];
        let src: Option<&str> = match &info.src {
            Some(u) => Some(u.as_str()),
            None => None,
        };
        let e = element_edit(info.tag.as_str(), src, info.attrs.as_slice(), keys, true);
        r.push(e);
        i = i + 1;
    }
    assert(edits_view(r@) =~= planned_edits(infos_view(infos@), pairs_view(keys@)));
    r
}

/// The `<img>` sources the elements show, in order.
fn img_sources_of(infos: &Vec<ElementInfo>) -> (r: Vec<String>)
    ensures
        strs_view(r@) == img_sources(infos_view(infos@)),
{
    let ghost iv = infos_view(infos@);
    let no_keys: Vec<(String, String)> = Vec::new();
    assert(pairs_view(no_keys@) =~= Seq::<(Seq<char>, Seq<char>)>::empty());
    let mut r: Vec<String> = Vec::new();
    let mut i: usize = 0;
    assert(iv.take(0) =~= Seq::<(Seq<char>, Option<Seq<char>>, Seq<Seq<char>>)>::empty());
    while i < infos.len()
        invariant
            i <= infos.len(),
            iv == infos_view(infos@),
            pairs_view(no_keys@) == Seq::<(Seq<char>, Seq<char>)>::empty(),
            strs_view(r@) == img_sources(iv.take(i as int)),
        decreases infos.len() - i,
    {
        let info = &infos[i];
        let src: Option<&str> = match &info.src {
            Some(u) => Some(u.as_str()),
            None => None,
        };
        let e = element_edit(info.tag.as_str(), src, info.attrs.as_slice(), no_keys.as_slice(), false);
        proof {
            assert(iv.take(i + 1).drop_last() =~= iv.take(i as int));
            assert(iv.take(i + 1).last() == info_view(infos@[i as int]));
        }
        match e.seen_src {
            Some(u) => {
                r.push(u);
                assert(strs_view(r@) =~= img_sources(iv.take(i as int)).push(u@));
            },
            None => {},
        }
        i = i + 1;
    }
    assert(iv.take(infos.len() as int) =~= iv);
    r
}

// ---------------------------------------------------------------------------
// Image URLs
// ---------------------------------------------------------------------------

pub open spec fn is_remote(u: Seq<char>) -> bool {
    starts_with(u, "http://"@) || starts_with(u, "https://"@)
}

/// Remote URLs of `srcs`, duplicates dropped, first-seen order.
pub open spec fn remote_unique(srcs: Seq<Seq<char>>) -> Seq<Seq<char>>
    decreases srcs.len(),
{
    if srcs.len() == 0 {
        Seq::empty()
    } else {
        let d = remote_unique(srcs.drop_last());
        if is_remote(srcs.last()) && !d.contains(srcs.last()) {
            d.push(srcs.last())
        } else {
            d
        }
    }
}

fn contains_str(v: &Vec<String>, s: &String) -> (r: bool)
    ensures
        r == strs_view(v@).contains(s@),
{
    let mut i: usize = 0;
    while i < v.len()
        invariant
            i <= v.len(),
            forall|k: int| 0 <= k < i ==> v@[k]@ != s@,
        decreases v.len() - i,
    {
        if str_eq(v[i].as_str(), s.as_str()) {
            assert(strs_view(v@)[i as int] == s@);
            return true;
        }
        i = i + 1;
    }
    proof {
        if strs_view(v@).contains(s@) {
            let k = choose|k: int| 0 <= k < strs_view(v@).len() && strs_view(v@)[k] == s@;
            assert(v@[k]@ == s@);
        }
    }
    false
}

/// The truncated HTML, whether it was truncated, and its remote `<img>` URLs
/// (deduplicated, first-seen order; none when images are off).
pub open spec fn collect_spec(html: Seq<char>, th: Seq<char>, images: bool) -> Seq<Seq<char>> {
    if images {
        remote_unique(img_sources(html_elements(th)))
    } else {
        Seq::empty()
    }
}

pub fn collect_doc_urls(html: &str, max_bytes: usize, images_enabled: bool) -> (r: (
    String,
    bool,
    Vec<String>,
))
    ensures
        r.1 == (html.len() > max_bytes),
        !r.1 ==> r.0@ == html@,
        r.1 ==> encode_utf8(r.0@) == encode_utf8(html@).take(
            cut_point(encode_utf8(html@), max_bytes as int),
        ),
        strs_view(r.2@) == collect_spec(html@, r.0@, images_enabled),
{
    let (th, truncated) = truncate_html(html, max_bytes);
    let mut urls: Vec<String> = Vec::new();
    if images_enabled {
        let infos = scan_elements(th.as_str());
        let srcs = img_sources_of(&infos);
        let mut i: usize = 0;
        while i < srcs.len()
            invariant
                i <= srcs.len(),
                strs_view(urls@) == remote_unique(strs_view(srcs@).take(i as int)),
            decreases srcs.len() - i,
        {
            proof {
                assert(strs_view(srcs@).take(i + 1).drop_last() =~= strs_view(srcs@).take(i as int));
            }
            let u = &srcs[i];
            let remote = str_starts_with(u.as_str(), "http://") || str_starts_with(
                u.as_str(),
                "https://",
            );
            if remote && !contains_str(&urls, u) {
                urls.push(u.clone());
                assert(strs_view(urls@) =~= remote_unique(strs_view(srcs@).take(i as int)).push(
                    u@,
                ));
            }
            i = i + 1;
        }
        assert(strs_view(srcs@).take(srcs.len() as int) =~= strs_view(srcs@));
    } else {
        assert(strs_view(urls@) =~= Seq::<Seq<char>>::empty());
    }
    (th, truncated, urls)
}

// ---------------------------------------------------------------------------
// Images
// ---------------------------------------------------------------------------

/// Image formats the pipeline keeps as they are; anything else is re-encoded.
#[derive(Debug, Clone, Copy, PartialEq, Eq, Structural)]
pub enum ImageKind {
    Png,
    Jpeg,
    Gif,
    Other,
}

/// The format `image::guess_format` reads from the magic bytes.
pub uninterp spec fn guessed_format(bytes: Seq<u8>) -> Option<ImageKind>;

/// `image::guess_format`: the format told by the leading magic bytes; `None`
/// when no known signature matches.
#[verifier::external_body]
fn guess_format(bytes: &[u8]) -> (r: Option<ImageKind>)
    ensures
        r == guessed_format(bytes@),
{
    match image::guess_format(bytes) {
        Ok(image::ImageFormat::Png) => Some(ImageKind::Png),
        Ok(image::ImageFormat::Jpeg) => Some(ImageKind::Jpeg),
        Ok(image::ImageFormat::Gif) => Some(ImageKind::Gif),
        Ok(_) => Some(ImageKind::Other),
        Err(_) => None,
    }
}

/// Width and height of the decoded image.
pub uninterp spec fn decoded_size(bytes: Seq<u8>) -> Option<(u32, u32)>;

/// `image::load_from_memory`, then `GenericImageView::dimensions` of the
/// result; `None` when the bytes do not decode.
#[verifier::external_body]
fn decode_size(bytes: &[u8]) -> (r: Option<(u32, u32)>)
    ensures
        r == decoded_size(bytes@),
{
    image::load_from_memory(bytes).ok().map(|img| image::GenericImageView::dimensions(&img))
}

/// The PNG encoding of the decoded image.
pub uninterp spec fn png_encoding(bytes: Seq<u8>) -> Option<Seq<u8>>;

/// `image::load_from_memory`, then `DynamicImage::write_to` as PNG; `None`
/// when decoding or encoding fails.
#[verifier::external_body]
fn reencode_png(bytes: &[u8]) -> (r: Option<Vec<u8>>)
    ensures
        opt_bytes(r) == png_encoding(bytes@),
{
    let img = image::load_from_memory(bytes).ok()?;
    let mut out = std::io::Cursor::new(Vec::new());
    img.write_to(&mut out, image::ImageFormat::Png).ok()?;
    Some(out.into_inner())
}

pub open spec fn opt_bytes(o: Option<Vec<u8>>) -> Option<Seq<u8>> {
    match o {
        Some(v) => Some(v@),
        None => None,
    }
}

/// Decode, drop tracking pixels (2 px or less on a side), keep PNG / JPEG /
/// GIF bytes as they are and re-encode anything else to PNG.
pub open spec fn normalize_spec(bytes: Seq<u8>) -> Option<(Seq<u8>, Seq<char>)> {
    match guessed_format(bytes) {
        None => None,
        Some(k) => match decoded_size(bytes) {
            None => None,
            Some((w, h)) => if w <= 2 || h <= 2 {
                None
            } else {
                match k {
                    ImageKind::Png => Some((bytes, "png"@)),
                    ImageKind::Jpeg => Some((bytes, "jpg"@)),
                    ImageKind::Gif => Some((bytes, "gif"@)),
                    ImageKind::Other => match png_encoding(bytes) {
                        Some(p) => Some((p, "png"@)),
                        None => None,
                    },
                }
            },
        },
    }
}

pub open spec fn opt_image(o: Option<(Vec<u8>, String)>) -> Option<(Seq<u8>, Seq<char>)> {
    match o {
        Some((b, e)) => Some((b@, e@)),
        None => None,
    }
}

fn bytes_of(b: &[u8]) -> (r: Vec<u8>)
    ensures
        r@ == b@,
{
    let mut v: Vec<u8> = Vec::new();
    let mut i: usize = 0;
    while i < b.len()
        invariant
            i <= b.len(),
            v@ == b@.take(i as int),
        decreases b.len() - i,
    {
        v.push(b[i]);
        i = i + 1;
        assert(b@.take(i as int) =~= b@.take(i - 1).push(b@[i - 1]));
    }
    assert(b@.take(b.len() as int) =~= b@);
    v
}

pub fn normalize_image(bytes: &[u8]) -> (r: Option<(Vec<u8>, String)>)
    ensures
        opt_image(r) == normalize_spec(bytes@),
{
    let k = match guess_format(bytes) {
        Some(k) => k,
        None => {
            return None;
        },
    };
    let (w, h) = match decode_size(bytes) {
        Some(d) => d,
        None => {
            return None;
        },
    };
    if w <= 2 || h <= 2 {
        return None;
    }
    match k {
        ImageKind::Png => Some((bytes_of(bytes), "png".to_owned())),
        ImageKind::Jpeg => Some((bytes_of(bytes), "jpg".to_owned())),
        ImageKind::Gif => Some((bytes_of(bytes), "gif".to_owned())),
        ImageKind::Other => match reencode_png(bytes) {
            Some(p) => Some((p, "png".to_owned())),
            None => None,
        },
    }
}

// ---------------------------------------------------------------------------
// Processing one document
// ---------------------------------------------------------------------------

pub open spec fn fetched_lookup(fetched: Seq<(Seq<char>, FetchedImage)>, url: Seq<char>) -> Option<
    FetchedImage,
>
    decreases fetched.len(),
{
    if fetched.len() == 0 {
        None
    } else if fetched[0].0 == url {
        Some(fetched[0].1)
    } else {
        fetched_lookup(fetched.drop_first(), url)
    }
}

pub open spec fn fetched_view(v: Seq<(String, FetchedImage)>) -> Seq<(Seq<char>, FetchedImage)> {
    v.map_values(|p: (String, FetchedImage)| (p.0@, p.1))
}

/// The first `n` URLs paired with the fetcher's answers for them, the URLs
/// it answered with an image only, in URL order.
pub open spec fn paired_upto(
    urls: Seq<Seq<char>>,
    answers: Seq<Option<FetchedImage>>,
    n: int,
) -> Seq<(Seq<char>, FetchedImage)>
    decreases n,
{
    if n <= 0 {
        Seq::empty()
    } else {
        let prev = paired_upto(urls, answers, n - 1);
        match answers[n - 1] {
            Some(f) => prev.push((urls[n - 1], f)),
            None => prev,
        }
    }
}

/// Each URL with the image the fetcher answered for it (answer `i` is for
/// URL `i`), in URL order; URLs without an image are left out.
pub open spec fn paired(urls: Seq<Seq<char>>, answers: Seq<Option<FetchedImage>>) -> Seq<
    (Seq<char>, FetchedImage),
> {
    paired_upto(urls, answers, if urls.len() <= answers.len() {
        urls.len() as int
    } else {
        answers.len() as int
    })
}

/// Pair the URLs with the fetcher's answers, keeping the images.
pub fn pair_fetched(urls: &[String], answers: Vec<Option<FetchedImage>>) -> (r: Vec<(String, FetchedImage)>)
    ensures
        fetched_view(r@) == paired(strs_view(urls@), answers@),
{
    let ghost uv = strs_view(urls@);
    let ghost av = answers@;
    let n: usize = if urls.len() <= answers.len() {
        urls.len()
    } else {
        answers.len()
    };
    let mut rest = answers;
    let mut out: Vec<(String, FetchedImage)> = Vec::new();
    let mut i: usize = 0;
    while i < n
        invariant
            i <= n,
            n <= urls.len(),
            n <= av.len(),
            uv == strs_view(urls@),
            rest@ == av.skip(i as int),
            fetched_view(out@) == paired_upto(uv, av, i as int),
        decreases n - i,
    {
        let a = rest.remove(0);
        assert(a == av[i as int]);
        assert(av.skip(i as int).remove(0) =~= av.skip(i + 1));
        match a {
            Some(f) => {
                out.push((string_of(&chars_of(urls[i].as_str())), f));
                assert(fetched_view(out@) =~= paired_upto(uv, av, i as int).push((uv[i as int], av[i as int]->Some_0)));
            },
            None => {},
        }
        i = i + 1;
    }
    out
}

/// SVG is kept as fetched; everything else is normalized.
pub open spec fn prepared_spec(f: FetchedImage) -> Option<(Seq<u8>, Seq<char>)> {
    if f.ext@ == "svg"@ {
        Some((f.bytes@, "svg"@))
    } else {
        normalize_spec(f.bytes@)
    }
}

/// The `(url, key)` table and the `(key, bytes)` assets for the first
/// `urls.len()` URLs: URL `i` gets key `img-{safe id}-{i}.{ext}` when it was
/// fetched and its image kept.
pub open spec fn key_table(
    id: Seq<char>,
    urls: Seq<String>,
    fetched: Seq<(Seq<char>, FetchedImage)>,
) -> (Seq<(Seq<char>, Seq<char>)>, Seq<(Seq<char>, Seq<u8>)>)
    decreases urls.len(),
{
    if urls.len() == 0 {
        (Seq::empty(), Seq::empty())
    } else {
        let (t, a) = key_table(id, urls.drop_last(), fetched);
        let u = urls.last()@;
        match fetched_lookup(fetched, u) {
            None => (t, a),
            Some(f) => match prepared_spec(f) {
                None => (t, a),
                Some((b, e)) => {
                    let k = asset_key_spec(id, (urls.len() - 1) as nat, e);
                    (t.push((u, k)), a.push((k, b)))
                },
            },
        }
    }
}

pub open spec fn truncation_note() -> Seq<char> {
    "<p class=\"truncated\"><em>… Article truncated for on-device reading — open it in Readwise for the full text.</em></p>"@
}

pub open spec fn assets_view(a: Seq<(String, Vec<u8>)>) -> Seq<(Seq<char>, Seq<u8>)> {
    a.map_values(|p: (String, Vec<u8>)| (p.0@, p.1@))
}

/// Sanitized HTML (images rewritten to their keys, or dropped; the
/// truncation note appended when cut) and the image assets.
pub open spec fn processed_spec(
    id: Seq<char>,
    th: Seq<char>,
    truncated: bool,
    images: bool,
    urls: Seq<String>,
    fetched: Seq<(Seq<char>, FetchedImage)>,
) -> (Seq<char>, Seq<(Seq<char>, Seq<u8>)>) {
    let (t, a) = if images {
        key_table(id, urls, fetched)
    } else {
        (Seq::empty(), Seq::empty())
    };
    let cleaned = match edited(th, planned_edits(html_elements(th), t)) {
        Some(h) => h,
        None => th,
    };
    (
        if truncated {
            cleaned + truncation_note()
        } else {
            cleaned
        },
        a,
    )
}

fn lookup_fetched<'a>(fetched: &'a [(String, FetchedImage)], url: &str) -> (r: Option<&'a FetchedImage>)
    ensures
        match r {
            Some(f) => fetched_lookup(fetched_view(fetched@), url@) == Some(*f),
            None => fetched_lookup(fetched_view(fetched@), url@) is None,
        },
{
    let ghost fv = fetched_view(fetched@);
    let mut i: usize = 0;
    assert(fv.skip(0) =~= fv);
    while i < fetched.len()
        invariant
            i <= fetched.len(),
            fv == fetched_view(fetched@),
            fetched_lookup(fv, url@) == fetched_lookup(fv.skip(i as int), url@),
        decreases fetched.len() - i,
    {
        assert(fv.skip(i as int)[0] == fv[i as int]);
        assert(fv.skip(i as int).drop_first() =~= fv.skip(i + 1));
        if str_eq(fetched[i].0.as_str(), url) {
            return Some(&fetched[i].1);
        }
        i = i + 1;
    }
    None
}

/// Build sanitized HTML and image assets for one document from its truncated
/// HTML, its image URLs (first-seen order) and the fetched images.
pub fn assemble_processed(
    doc_id: &str,
    truncated_html: &str,
    truncated: bool,
    images_enabled: bool,
    urls: &[String],
    fetched: &[(String, FetchedImage)],
) -> (p: Processed)
    ensures
        (p.html@, assets_view(p.assets@)) == processed_spec(
            doc_id@,
            truncated_html@,
            truncated,
            images_enabled,
            urls@,
            fetched_view(fetched@),
        ),
{
    let mut keys: Vec<(String, String)> = Vec::new();
    let mut assets: Vec<(String, Vec<u8>)> = Vec::new();
    if images_enabled {
        let mut i: usize = 0;
        while i < urls.len()
            invariant
                i <= urls.len(),
                (pairs_view(keys@), assets_view(assets@)) == key_table(
                    doc_id@,
                    urls@.take(i as int),
                    fetched_view(fetched@),
                ),
            decreases urls.len() - i,
        {
            proof {
                assert(urls@.take(i + 1).drop_last() =~= urls@.take(i as int));
            }
            let url = &urls[i];
            match lookup_fetched(fetched, url.as_str()) {
                Some(f) => {
                    let prepared = if str_eq(f.ext.as_str(), "svg") {
                        Some((bytes_of(f.bytes.as_slice()), "svg".to_owned()))
                    } else {
                        normalize_image(f.bytes.as_slice())
                    };
                    match prepared {
                        Some((bytes, ext)) => {
                            let key = asset_key(doc_id, i, ext.as_str());
                            keys.push((url.clone(), key.clone()));
                            assets.push((key, bytes));
                            assert(pairs_view(keys@) =~= key_table(
                                doc_id@,
                                urls@.take(i as int),
                                fetched_view(fetched@),
                            ).0.push((url@, asset_key_spec(doc_id@, i as nat, ext@))));
                            assert(assets_view(assets@) =~= key_table(
                                doc_id@,
                                urls@.take(i as int),
                                fetched_view(fetched@),
                            ).1.push((asset_key_spec(doc_id@, i as nat, ext@), bytes@)));
                        },
                        None => {},
                    }
                },
                None => {},
            }
            i = i + 1;
        }
        assert(urls@.take(urls.len() as int) =~= urls@);
    } else {
        assert(pairs_view(keys@) =~= Seq::<(Seq<char>, Seq<char>)>::empty());
        assert(assets_view(assets@) =~= Seq::<(Seq<char>, Seq<u8>)>::empty());
    }
    let infos = scan_elements(truncated_html);
    let edits = sanitising_edits(&infos, keys.as_slice());
    let out = apply_edits(truncated_html, edits.as_slice());
    let mut cleaned = match out {
        Some(h) => h,
        None => truncated_html.to_owned(),
    };
    if truncated {
        cleaned.push_str(
            "<p class=\"truncated\"><em>… Article truncated for on-device reading — open it in Readwise for the full text.</em></p>",
        );
    }
    Processed { html: cleaned, assets }
}

/// Sanitise `html` and embed its images as local assets: cut at
/// `max_bytes`, collect the image URLs, hand them to the fetcher, pair its
/// answers with the URLs, assemble. The fetcher's answers are its own; given
/// them, the result is exact.
pub fn process_html<F: ImageFetcher + ?Sized>(
    html: &str,
    doc_id: &str,
    images_enabled: bool,
    max_bytes: usize,
    fetcher: &F,
) -> (p: Processed)
    ensures
        exists|th: String, truncated: bool, urls: Seq<String>, answers: Seq<Option<FetchedImage>>|
            {
                &&& truncated == (html.len() > max_bytes)
                &&& (!truncated ==> th@ == html@)
                &&& (truncated ==> encode_utf8(th@) == encode_utf8(html@).take(
                    cut_point(encode_utf8(html@), max_bytes as int),
                ))
                &&& strs_view(urls) == collect_spec(html@, th@, images_enabled)
                &&& (p.html@, assets_view(p.assets@)) == processed_spec(
                    doc_id@,
                    th@,
                    truncated,
                    images_enabled,
                    urls,
                    paired(strs_view(urls), answers),
                )
            },
{
    let (th, truncated, urls) = collect_doc_urls(html, max_bytes, images_enabled);
    let answers = fetcher.fetch_many(urls.as_slice());
    let ghost av = answers@;
    let fetched = pair_fetched(urls.as_slice(), answers);
    let p = assemble_processed(doc_id, th.as_str(), truncated, images_enabled, urls.as_slice(), fetched.as_slice());
    assert((p.html@, assets_view(p.assets@)) == processed_spec(
        doc_id@,
        th@,
        truncated,
        images_enabled,
        urls@,
        paired(strs_view(urls@), av),
    ));
    p
}

} // verus!
