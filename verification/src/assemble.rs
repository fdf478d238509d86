//! Build the reading document (index + full articles) and its manifest.
//!
//! Two tiers: an index that links straight to each full article, then the
//! articles themselves. Each article is produced twice: as an HTML fragment
//! and as the Typst row / article the renderer lays out.
use vstd::prelude::*;

use crate::content::{strip_tags, strip_tags_spec};
use crate::manifest::{Manifest, ManifestItem};
use crate::readwise::Document;
use crate::render::html2typst::{convert, convert_spec, fragment_nodes};
use crate::render::typst_doc::{Article, Row};
use crate::text::{
    ascii_lower_seq, chars_eq, chars_of, collapse_ws, collapse_ws_chars, decimal, decimal_pad2,
    extend_chars, extend_str, find_first, fmt_decimal_pad2, push_decimal,
    find_from, is_blank, lemma_find_first, lemma_find_first_found, lower_ascii, lowercase,
    matches_at, str_is_blank, string_of, to_lowercase, trim, trim_str,
};

verus! {

// ---------------------------------------------------------------------------
// Per-document text
// ---------------------------------------------------------------------------

/// The reading time shown for a document, `—` when unknown.
pub open spec fn reading_time_spec(d: Document) -> Seq<char> {
    match d.reading_time {
        Some(s) => if !is_blank(s@) {
            s@
        } else {
            "—"@
        },
        None => "—"@,
    }
}

pub fn rt(d: &Document) -> (r: String)
    ensures
        r@ == reading_time_spec(*d),
{
    match &d.reading_time {
        Some(s) => {
            if !str_is_blank(s.as_str()) {
                s.clone()
            } else {
                "—".to_owned()
            }
        },
        None => "—".to_owned(),
    }
}

/// ASCII-case-insensitive equality (`str::eq_ignore_ascii_case`).
pub open spec fn eq_ignore_ascii_case(a: Seq<char>, b: Seq<char>) -> bool {
    ascii_lower_seq(a) == ascii_lower_seq(b)
}

/// `author · site · reading time`, leaving out what is blank and the site when
/// it only repeats the author (newsletters often set both to one name).
pub open spec fn byline_spec(d: Document) -> Seq<char> {
    let author = trim(d.author@);
    let site = trim(d.site_name@);
    let with_site = if site.len() > 0 && !eq_ignore_ascii_case(site, author) {
        (if author.len() > 0 {
            author + " · "@
        } else {
            author
        }) + site
    } else {
        author
    };
    (if with_site.len() > 0 {
        with_site + " · "@
    } else {
        with_site
    }) + reading_time_spec(d)
}

/// The byline shows the site whenever it is not blank and is not the author
/// written in another case: after the author and ` · ` when there is an
/// author, on its own otherwise; the reading time always ends the line.
pub proof fn byline_shows_distinct_site(d: Document)
    requires
        trim(d.site_name@).len() > 0,
        ascii_lower_seq(trim(d.site_name@)) != ascii_lower_seq(trim(d.author@)),
    ensures
        trim(d.author@).len() == 0 ==> byline_spec(d) == trim(d.site_name@) + " · "@
            + reading_time_spec(d),
        trim(d.author@).len() > 0 ==> byline_spec(d) == trim(d.author@) + " · "@ + trim(
            d.site_name@,
        ) + " · "@ + reading_time_spec(d),
{
    let author = trim(d.author@);
    let site = trim(d.site_name@);
    if author.len() == 0 {
        assert(author + site =~= site);
    }
}

/// A blank site, or one that only repeats the author in another case, is
/// left out: the byline is the author (and ` · ` when there is one) and the
/// reading time.
pub proof fn byline_omits_repeated_site(d: Document)
    requires
        trim(d.site_name@).len() == 0 || ascii_lower_seq(trim(d.site_name@)) == ascii_lower_seq(
            trim(d.author@),
        ),
    ensures
        trim(d.author@).len() == 0 ==> byline_spec(d) == reading_time_spec(d),
        trim(d.author@).len() > 0 ==> byline_spec(d) == trim(d.author@) + " · "@
            + reading_time_spec(d),
{
    let author = trim(d.author@);
    if author.len() == 0 {
        assert(author + reading_time_spec(d) =~= reading_time_spec(d));
    }
}

pub fn byline(d: &Document) -> (r: String)
    ensures
        r@ == byline_spec(*d),
{
    let author = trim_str(d.author.as_str());
    let site = trim_str(d.site_name.as_str());
    let mut s: Vec<char> = Vec::new();
    extend_chars(&mut s, &author);
    if site.len() > 0 && !chars_eq(&lower_ascii(&site), &lower_ascii(&author)) {
        if s.len() > 0 {
            crate::text::extend_str(&mut s, " · ");
        }
        extend_chars(&mut s, &site);
    }
    if s.len() > 0 {
        crate::text::extend_str(&mut s, " · ");
    }
    let t = rt(d);
    crate::text::extend_str(&mut s, t.as_str());
    string_of(&s)
}

/// Heading for a document: its title, else its site name, else `Untitled`.
pub open spec fn title_spec(d: Document) -> Seq<char> {
    if !is_blank(d.title@) {
        d.title@
    } else if !is_blank(d.site_name@) {
        d.site_name@
    } else {
        "Untitled"@
    }
}

pub fn title_or(d: &Document) -> (r: String)
    ensures
        r@ == title_spec(*d),
{
    if !str_is_blank(d.title.as_str()) {
        d.title.clone()
    } else if !str_is_blank(d.site_name.as_str()) {
        d.site_name.clone()
    } else {
        "Untitled".to_owned()
    }
}

// ---------------------------------------------------------------------------
// Duplicate title headings
// ---------------------------------------------------------------------------

/// Text normalised for comparison: whitespace runs collapsed, lowercased.
pub open spec fn norm_spec(s: Seq<char>) -> Seq<char> {
    lowercase(collapse_ws(s))
}

pub fn norm(s: &str) -> (r: Vec<char>)
    ensures
        r@ == norm_spec(s@),
{
    let c = collapse_ws_chars(&chars_of(s));
    let joined = string_of(&c);
    let lower = to_lowercase(joined.as_str());
    chars_of(lower.as_str())
}

/// The earliest `<h1` or `<h2` in `s`: its index and the closing tag.
pub open spec fn next_heading(s: Seq<char>) -> Option<(int, Seq<char>)> {
    match (find_first(s, "<h1"@, 0), find_first(s, "<h2"@, 0)) {
        (Some(a), Some(b)) => if a <= b {
            Some((a, "</h1>"@))
        } else {
            Some((b, "</h2>"@))
        },
        (Some(a), None) => Some((a, "</h1>"@)),
        (None, Some(b)) => Some((b, "</h2>"@)),
        (None, None) => None,
    }
}

/// Drop every complete `<h1>`/`<h2>` heading of `rest` whose normalised text
/// is `nt`; everything else is kept. A heading without its `>` or closing tag
/// ends the scan and the rest is kept as it is.
pub open spec fn strip_title_headings(rest: Seq<char>, nt: Seq<char>) -> Seq<char>
    decreases rest.len(),
{
    match next_heading(rest) {
        None => rest,
        Some((pos, close)) => match find_first(rest, ">"@, pos) {
            None => rest,
            Some(gt) => match find_first(rest, close, gt + 1) {
                None => rest,
                Some(c) => {
                    let end = c + close.len();
                    if 0 <= pos <= gt + 1 <= c && 0 < end <= rest.len() {
                        let kept = if norm_spec(strip_tags_spec(rest.subrange(gt + 1, c))) == nt {
                            rest.take(pos)
                        } else {
                            rest.take(end)
                        };
                        kept + strip_title_headings(rest.skip(end), nt)
                    } else {
                        rest
                    }
                },
            },
        },
    }
}

/// Body headings that repeat the title removed (newsletters routinely repeat
/// the title as a body heading); unchanged when the title normalises to "".
pub open spec fn remove_title_headings_spec(html: Seq<char>, title: Seq<char>) -> Seq<char> {
    let nt = norm_spec(title);
    if nt.len() == 0 {
        html
    } else {
        strip_title_headings(html, nt)
    }
}

fn skip_chars(v: &Vec<char>, k: usize) -> (r: Vec<char>)
    requires
        k <= v.len(),
    ensures
        r@ == v@.skip(k as int),
{
    let mut r: Vec<char> = Vec::new();
    let mut i = k;
    while i < v.len()
        invariant
            k <= i <= v.len(),
            r@ == v@.subrange(k as int, i as int),
        decreases v.len() - i,
    {
        r.push(v[i]);
        i = i + 1;
        assert(v@.subrange(k as int, i as int) =~= v@.subrange(k as int, i - 1).push(v@[i - 1]));
    }
    assert(v@.subrange(k as int, v.len() as int) =~= v@.skip(k as int));
    r
}

fn sub_chars(v: &Vec<char>, a: usize, b: usize) -> (r: Vec<char>)
    requires
        a <= b <= v.len(),
    ensures
        r@ == v@.subrange(a as int, b as int),
{
    let mut r: Vec<char> = Vec::new();
    let mut i = a;
    while i < b
        invariant
            a <= i <= b <= v.len(),
            r@ == v@.subrange(a as int, i as int),
        decreases b - i,
    {
        r.push(v[i]);
        i = i + 1;
        assert(v@.subrange(a as int, i as int) =~= v@.subrange(a as int, i - 1).push(v@[i - 1]));
    }
    r
}

fn find_in(s: &Vec<char>, p: &str, from: usize) -> (r: Option<usize>)
    ensures
        find_first(s@, p@, from as int) == (match r {
            Some(i) => Some(i as int),
            None => None::<int>,
        }),
        r matches Some(i) ==> from <= i && matches_at(s@, p@, i as int),
{
    let pv = chars_of(p);
    let r = find_from(s, &pv, from);
    proof {
        lemma_find_first(s@, p@, from as int, r);
        lemma_find_first_found(s@, p@, from as int);
    }
    r
}

/// One heading of `rest`: `None` when no complete heading is left, else what
/// is kept and how much is consumed.
fn heading_step(rest: &Vec<char>, nt: &Vec<char>) -> (r: Option<(Vec<char>, usize)>)
    ensures
        match r {
            None => strip_title_headings(rest@, nt@) == rest@,
            Some((kept, end)) => 0 < end <= rest.len() && strip_title_headings(rest@, nt@)
                == kept@ + strip_title_headings(rest@.skip(end as int), nt@),
        },
{
    let n_rest = rest.len();
    let p1 = find_in(rest, "<h1", 0);
    let p2 = find_in(rest, "<h2", 0);
    let (pos, close) = match (p1, p2) {
        (Some(a), Some(b)) => if a <= b {
            (a, "</h1>")
        } else {
            (b, "</h2>")
        },
        (Some(a), None) => (a, "</h1>"),
        (None, Some(b)) => (b, "</h2>"),
        (None, None) => {
            return None;
        },
    };
    assert(next_heading(rest@) == Some((pos as int, close@)));
    let gt = match find_in(rest, ">", pos) {
        Some(g) => g,
        None => {
            return None;
        },
    };
    proof {
        reveal_strlit(">");
        assert(gt + 1 <= rest@.len());
    }
    let c = match find_in(rest, close, gt + 1) {
        Some(c) => c,
        None => {
            return None;
        },
    };
    let close_v = chars_of(close);
    assert(c + close@.len() <= rest@.len());
    let end = c + close_v.len();
    let inner = sub_chars(rest, gt + 1, c);
    let inner_s = string_of(&inner);
    let stripped = strip_tags(inner_s.as_str());
    let n = norm(stripped.as_str());
    let kept = if chars_eq(&n, nt) {
        sub_chars(rest, 0, pos)
    } else {
        sub_chars(rest, 0, end)
    };
    assert(rest@.subrange(0, pos as int) =~= rest@.take(pos as int));
    assert(rest@.subrange(0, end as int) =~= rest@.take(end as int));
    Some((kept, end))
}

pub fn remove_title_headings(html: &str, title: &str) -> (r: String)
    ensures
        r@ == remove_title_headings_spec(html@, title@),
{
    let nt = norm(title);
    if nt.len() == 0 {
        return html.to_owned();
    }
    let mut rest = chars_of(html);
    let mut out: Vec<char> = Vec::new();
    loop
        invariant_except_break
            out@ + strip_title_headings(rest@, nt@) == strip_title_headings(html@, nt@),
        ensures
            out@ == strip_title_headings(html@, nt@),
        decreases rest.len(),
    {
        match heading_step(&rest, &nt) {
            None => {
                extend_chars(&mut out, &rest);
                break ;
            },
            Some((kept, end)) => {
                let ghost before = out@;
                extend_chars(&mut out, &kept);
                rest = skip_chars(&rest, end);
                assert(before + (kept@ + strip_title_headings(rest@, nt@)) =~= out@
                    + strip_title_headings(rest@, nt@));
            },
        }
    }
    string_of(&out)
}

// ---------------------------------------------------------------------------
// HTML fragments
// ---------------------------------------------------------------------------

pub open spec fn html_esc_char(c: char) -> Seq<char> {
    if c == '&' {
        "&amp;"@
    } else if c == '<' {
        "&lt;"@
    } else if c == '>' {
        "&gt;"@
    } else if c == '"' {
        "&quot;"@
    } else if c == '\'' {
        "&#x27;"@
    } else {
        seq![c]
    }
}

/// HTML text escaping of `& < > " '`.
pub open spec fn html_escape(s: Seq<char>) -> Seq<char>
    decreases s.len(),
{
    if s.len() == 0 {
        Seq::empty()
    } else {
        html_escape(s.drop_last()) + html_esc_char(s.last())
    }
}

fn push_html_escaped(out: &mut Vec<char>, s: &str)
    ensures
        final(out)@ == old(out)@ + html_escape(s@),
{
    let ghost start = out@;
    let cs = chars_of(s);
    let mut i: usize = 0;
    while i < cs.len()
        invariant
            i <= cs.len(),
            cs@ == s@,
            out@ == start + html_escape(cs@.take(i as int)),
        decreases cs.len() - i,
    {
        let c = cs[i];
        let ghost before = out@;
        if c == '&' {
            extend_str(out, "&amp;");
        } else if c == '<' {
            extend_str(out, "&lt;");
        } else if c == '>' {
            extend_str(out, "&gt;");
        } else if c == '"' {
            extend_str(out, "&quot;");
        } else if c == '\'' {
            extend_str(out, "&#x27;");
        } else {
            out.push(c);
            assert(out@ =~= before + seq![c]);
        }
        proof {
            assert(cs@.take(i + 1).drop_last() =~= cs@.take(i as int));
            assert(out@ =~= start + (html_escape(cs@.take(i as int)) + html_esc_char(c)));
        }
        i = i + 1;
    }
    assert(cs@.take(cs.len() as int) =~= cs@);
}

/// The in-document anchor of an article.
pub open spec fn anchor_spec(d: Document) -> Seq<char> {
    "article-"@ + d.id@
}

fn anchor(d: &Document) -> (r: String)
    ensures
        r@ == anchor_spec(*d),
{
    let mut v: Vec<char> = Vec::new();
    extend_str(&mut v, "article-");
    extend_str(&mut v, d.id.as_str());
    string_of(&v)
}

pub open spec fn index_row_html(i: nat, d: Document) -> Seq<char> {
    "<a class=\"index-row\" href=\"#"@ + html_escape(anchor_spec(d))
        + "\"><span class=\"n\">"@ + decimal_pad2(i + 1) + "</span><span class=\"t\">"@
        + html_escape(title_spec(d)) + "</span><span class=\"rt\">"@ + html_escape(
        reading_time_spec(d),
    ) + "</span></a>\n"@
}

pub open spec fn index_rows_html(docs: Seq<Document>) -> Seq<char>
    decreases docs.len(),
{
    if docs.len() == 0 {
        Seq::empty()
    } else {
        index_rows_html(docs.drop_last()) + index_row_html((docs.len() - 1) as nat, docs.last())
    }
}

/// The index page: the collection name, the article count, one row per
/// article linking to its anchor.
pub open spec fn index_html(collection: Seq<char>, docs: Seq<Document>) -> Seq<char> {
    "<section class=\"index\">\n<div class=\"index-title\">"@ + html_escape(collection)
        + "</div>\n<div class=\"index-sub\">"@ + decimal(docs.len()) + " articles</div>\n"@
        + index_rows_html(docs) + "</section>"@
}

/// One full article: headline, byline, body.
pub open spec fn article_html(d: Document, content: Seq<char>) -> Seq<char> {
    "<section class=\"article\" id=\""@ + html_escape(anchor_spec(d))
        + "\">\n<h1 class=\"headline\">"@ + html_escape(title_spec(d))
        + "</h1>\n<div class=\"byline\">"@ + html_escape(byline_spec(d))
        + "</div>\n<div class=\"hr\"></div>\n<div class=\"body drop\">"@ + content
        + "</div>\n</section>"@
}

fn push_index_row(out: &mut Vec<char>, i: usize, d: &Document)
    requires
        i < usize::MAX,
    ensures
        final(out)@ == old(out)@ + index_row_html(i as nat, *d),
{
    let ghost start = out@;
    extend_str(out, "<a class=\"index-row\" href=\"#");
    push_html_escaped(out, anchor(d).as_str());
    extend_str(out, "\"><span class=\"n\">");
    let num = fmt_decimal_pad2((i + 1) as u64);
    extend_str(out, num.as_str());
    extend_str(out, "</span><span class=\"t\">");
    push_html_escaped(out, title_or(d).as_str());
    extend_str(out, "</span><span class=\"rt\">");
    push_html_escaped(out, rt(d).as_str());
    extend_str(out, "</span></a>\n");
    assert(out@ =~= start + index_row_html(i as nat, *d));
}

fn index_fragment(collection: &str, docs: &[Document]) -> (r: String)
    ensures
        r@ == index_html(collection@, docs@),
{
    let mut out: Vec<char> = Vec::new();
    extend_str(&mut out, "<section class=\"index\">\n<div class=\"index-title\">");
    push_html_escaped(&mut out, collection);
    extend_str(&mut out, "</div>\n<div class=\"index-sub\">");
    push_decimal(&mut out, docs.len() as u64);
    extend_str(&mut out, " articles</div>\n");
    let ghost head = out@;
    let mut i: usize = 0;
    while i < docs.len()
        invariant
            i <= docs.len(),
            out@ == head + index_rows_html(docs@.take(i as int)),
        decreases docs.len() - i,
    {
        push_index_row(&mut out, i, &docs[i]);
        proof {
            let t = docs@.take(i + 1);
            assert(t.drop_last() =~= docs@.take(i as int));
            assert(t.last() == docs@[i as int]);
        }
        i = i + 1;
    }
    assert(docs@.take(docs.len() as int) =~= docs@);
    extend_str(&mut out, "</section>");
    assert(out@ =~= index_html(collection@, docs@));
    string_of(&out)
}

fn article_fragment(d: &Document, content: &str) -> (r: String)
    ensures
        r@ == article_html(*d, content@),
{
    let mut out: Vec<char> = Vec::new();
    extend_str(&mut out, "<section class=\"article\" id=\"");
    push_html_escaped(&mut out, anchor(d).as_str());
    extend_str(&mut out, "\">\n<h1 class=\"headline\">");
    push_html_escaped(&mut out, title_or(d).as_str());
    extend_str(&mut out, "</h1>\n<div class=\"byline\">");
    push_html_escaped(&mut out, byline(d).as_str());
    extend_str(&mut out, "</div>\n<div class=\"hr\"></div>\n<div class=\"body drop\">");
    extend_str(&mut out, content);
    extend_str(&mut out, "</div>\n</section>");
    assert(out@ =~= article_html(*d, content@));
    string_of(&out)
}

// ---------------------------------------------------------------------------
// The assembled document
// ---------------------------------------------------------------------------

/// What the content pipeline hands back for one document: processed HTML and
/// its `(asset key, bytes)` blobs.
pub type ContentOut = (String, Vec<(String, Vec<u8>)>);

pub struct Built {
    /// HTML fragments: the index, then one per article.
    pub fragments: Vec<String>,
    pub assets: Vec<(String, Vec<u8>)>,
    pub manifest: Manifest,
    pub typst_rows: Vec<Row>,
    pub typst_articles: Vec<Article>,
}

/// The article body: processed HTML with title-repeating headings dropped.
pub open spec fn content_of(d: Document, o: ContentOut) -> Seq<char> {
    remove_title_headings_spec(o.0@, title_spec(d))
}

pub open spec fn item_of(d: Document, it: ManifestItem) -> bool {
    &&& it.id@ == d.id@
    &&& it.title@ == title_spec(d)
    &&& it.url@ == d.url@
    &&& it.article_anchor@ == anchor_spec(d)
    &&& it.author@ == d.author@
    &&& it.source_url@ == d.source_url@
    &&& it.category@ == d.category@
    &&& it.page_range is None
}

pub open spec fn row_of(i: nat, d: Document, r: Row) -> bool {
    &&& r.num@ == decimal_pad2(i + 1)
    &&& r.title@ == title_spec(d)
    &&& r.author@ == d.author@
    &&& r.reading_time@ == reading_time_spec(d)
    &&& r.anchor@ == anchor_spec(d)
}

pub open spec fn article_of(d: Document, content: Seq<char>, a: Article) -> bool {
    &&& a.anchor@ == anchor_spec(d)
    &&& a.title@ == title_spec(d)
    &&& a.byline@ == byline_spec(d)
    &&& a.body@ == convert_spec(fragment_nodes(content))
}

pub open spec fn assets_of(outs: Seq<ContentOut>) -> Seq<(String, Vec<u8>)>
    decreases outs.len(),
{
    if outs.len() == 0 {
        Seq::empty()
    } else {
        assets_of(outs.drop_last()) + outs.last().1@
    }
}

/// `b` is the document for `docs` (in order) with the given content outputs.
pub open spec fn assembled(
    collection: Seq<char>,
    docs: Seq<Document>,
    outs: Seq<ContentOut>,
    b: Built,
) -> bool {
    let n = docs.len();
    &&& outs.len() == n
    &&& b.fragments@.len() == n + 1
    &&& b.fragments@[0]@ == index_html(collection, docs)
    &&& forall|i: int|
        1 <= i <= n ==> (#[trigger] b.fragments@[i])@ == article_html(
            docs[i - 1],
            content_of(docs[i - 1], outs[i - 1]),
        )
    &&& b.assets@ == assets_of(outs)
    &&& b.manifest.collection@ == collection
    &&& b.manifest.items@.len() == n
    &&& forall|i: int| 0 <= i < n ==> item_of(docs[i], #[trigger] b.manifest.items@[i])
    &&& b.typst_rows@.len() == n
    &&& forall|i: int| 0 <= i < n ==> row_of(i as nat, docs[i], #[trigger] b.typst_rows@[i])
    &&& b.typst_articles@.len() == n
    &&& forall|i: int|
        0 <= i < n ==> article_of(
            docs[i],
            content_of(docs[i], outs[i]),
            #[trigger] b.typst_articles@[i],
        )
}

/// Assemble the document from each doc's already-processed content.
pub fn assemble_from(collection: &str, docs: &[Document], outs: Vec<ContentOut>) -> (b: Built)
    requires
        outs.len() == docs.len(),
    ensures
        assembled(collection@, docs@, outs@, b),
{
    let ghost outs0 = outs@;
    let mut outs = outs;
    let mut fragments: Vec<String> = Vec::new();
    fragments.push(index_fragment(collection, docs));
    let mut assets: Vec<(String, Vec<u8>)> = Vec::new();
    let mut items: Vec<ManifestItem> = Vec::new();
    let mut rows: Vec<Row> = Vec::new();
    let mut arts: Vec<Article> = Vec::new();
    let mut i: usize = 0;
    while i < docs.len()
        invariant
            i <= docs.len(),
            outs0.len() == docs@.len(),
            outs@ == outs0.skip(i as int),
            fragments@.len() == i + 1,
            fragments@[0]@ == index_html(collection@, docs@),
            forall|k: int|
                1 <= k <= i ==> (#[trigger] fragments@[k])@ == article_html(
                    docs@[k - 1],
                    content_of(docs@[k - 1], outs0[k - 1]),
                ),
            assets@ == assets_of(outs0.take(i as int)),
            items@.len() == i,
            forall|k: int| 0 <= k < i ==> item_of(docs@[k], #[trigger] items@[k]),
            rows@.len() == i,
            forall|k: int| 0 <= k < i ==> row_of(k as nat, docs@[k], #[trigger] rows@[k]),
            arts@.len() == i,
            forall|k: int|
                0 <= k < i ==> article_of(
                    docs@[k],
                    content_of(docs@[k], outs0[k]),
                    #[trigger] arts@[k],
                ),
        decreases docs.len() - i,
    {
        let d = &docs[i];
        let (html, mut a) = outs.remove(0);
        assert(outs0[i as int] == (html, a));
        let ghost a0 = a@;
        assets.append(&mut a);
        proof {
            let t = outs0.take(i + 1);
            assert(t.drop_last() =~= outs0.take(i as int));
            assert(t.last() == outs0[i as int]);
            assert(outs@ =~= outs0.skip(i + 1));
        }
        let title = title_or(d);
        let content = remove_title_headings(html.as_str(), title.as_str());
        let article_anchor = anchor(d);
        fragments.push(article_fragment(d, content.as_str()));
        items.push(
            ManifestItem {
                id: d.id.clone(),
                title: title.clone(),
                url: d.url.clone(),
                article_anchor: article_anchor.clone(),
                author: d.author.clone(),
                source_url: d.source_url.clone(),
                category: d.category.clone(),
                page_range: None,
            },
        );
        rows.push(
            Row {
                num: fmt_decimal_pad2((i + 1) as u64),
                title: title.clone(),
                author: d.author.clone(),
                reading_time: rt(d),
                anchor: article_anchor.clone(),
            },
        );
        arts.push(
            Article {
                anchor: article_anchor,
                title,
                byline: byline(d),
                body: convert(content.as_str()),
            },
        );
        i = i + 1;
    }
    assert(outs0.take(docs.len() as int) =~= outs0);
    Built {
        fragments,
        assets,
        manifest: Manifest { collection: collection.to_owned(), items },
        typst_rows: rows,
        typst_articles: arts,
    }
}

/// The raw HTML a document is processed from (empty when it has none).
pub open spec fn raw_html_spec(d: Document) -> Seq<char> {
    match d.html_content {
        Some(h) => h@,
        None => Seq::empty(),
    }
}

/// `f`, called with the document's raw HTML and its id, answered `o`.
pub open spec fn content_call<F: Fn(&str, &str) -> ContentOut>(
    f: F,
    d: Document,
    o: ContentOut,
) -> bool {
    exists|a: &str, b: &str| a@ == raw_html_spec(d) && b@ == d.id@ && call_ensures(f, (a, b), o)
}

/// Build the reading document (index + full articles) and the manifest.
/// `content_fn(html_content, id) -> (processed_html, assets)` is handed in so
/// the content pipeline, and its network, stay outside assembly.
pub fn assemble_document<F: Fn(&str, &str) -> ContentOut>(
    collection: &str,
    docs: &[Document],
    content_fn: F,
) -> (b: Built)
    requires
        forall|x: &str, y: &str| call_requires(content_fn, (x, y)),
    ensures
        exists|outs: Seq<ContentOut>|
            assembled(collection@, docs@, outs, b) && forall|i: int|
                0 <= i < docs@.len() ==> content_call(content_fn, docs@[i], #[trigger] outs[i]),
{
    let mut outs: Vec<ContentOut> = Vec::new();
    let mut i: usize = 0;
    while i < docs.len()
        invariant
            i <= docs.len(),
            outs@.len() == i,
            forall|x: &str, y: &str| call_requires(content_fn, (x, y)),
            forall|k: int| 0 <= k < i ==> content_call(content_fn, docs@[k], #[trigger] outs@[k]),
        decreases docs.len() - i,
    {
        let d = &docs[i];
        let raw = match &d.html_content {
            Some(h) => h.clone(),
            None => String::new(),
        };
        let raw_s = raw.as_str();
        let id_s = d.id.as_str();
        let o = content_fn(raw_s, id_s);
        proof {
            assert(raw_s@ == raw_html_spec(docs@[i as int]));
            assert(content_call(content_fn, docs@[i as int], o));
        }
        outs.push(o);
        i = i + 1;
    }
    let ghost outs_v = outs@;
    let b = assemble_from(collection, docs, outs);
    assert(assembled(collection@, docs@, outs_v, b));
    b
}

// ---------------------------------------------------------------------------
// Laws
// ---------------------------------------------------------------------------

proof fn lemma_strip_title_headings_len(rest: Seq<char>, nt: Seq<char>)
    ensures
        strip_title_headings(rest, nt).len() <= rest.len(),
    decreases rest.len(),
{
    match next_heading(rest) {
        None => {},
        Some((pos, close)) => match find_first(rest, ">"@, pos) {
            None => {},
            Some(gt) => match find_first(rest, close, gt + 1) {
                None => {},
                Some(c) => {
                    let end = c + close.len();
                    if 0 <= pos <= gt + 1 <= c && 0 < end <= rest.len() {
                        lemma_strip_title_headings_len(rest.skip(end), nt);
                    }
                },
            },
        },
    }
}

/// Removing duplicate title headings never adds text.
pub proof fn remove_title_headings_never_grows(html: Seq<char>, title: Seq<char>)
    ensures
        remove_title_headings_spec(html, title).len() <= html.len(),
{
    if norm_spec(title).len() > 0 {
        lemma_strip_title_headings_len(html, norm_spec(title));
    }
}

/// Every index row links to the article at the same position, and the
/// manifest records that same anchor for it.
pub proof fn index_rows_link_to_articles(
    collection: Seq<char>,
    docs: Seq<Document>,
    outs: Seq<ContentOut>,
    b: Built,
)
    requires
        assembled(collection, docs, outs, b),
    ensures
        b.typst_rows@.len() == b.typst_articles@.len(),
        b.manifest.items@.len() == b.typst_articles@.len(),
        forall|i: int|
            0 <= i < b.typst_rows@.len() ==> (#[trigger] b.typst_rows@[i]).anchor@
                == b.typst_articles@[i].anchor@ && b.manifest.items@[i].article_anchor@
                == b.typst_articles@[i].anchor@ && b.manifest.items@[i].id@ == docs[i].id@,
{
    assert forall|i: int| 0 <= i < b.typst_rows@.len() implies (#[trigger] b.typst_rows@[i]).anchor@
        == b.typst_articles@[i].anchor@ && b.manifest.items@[i].article_anchor@
        == b.typst_articles@[i].anchor@ && b.manifest.items@[i].id@ == docs[i].id@ by {
        assert(row_of(i as nat, docs[i], b.typst_rows@[i]));
        assert(item_of(docs[i], b.manifest.items@[i]));
        assert(article_of(docs[i], content_of(docs[i], outs[i]), b.typst_articles@[i]));
    }
}

} // verus!
