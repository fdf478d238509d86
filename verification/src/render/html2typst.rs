//! Conversion of sanitized article-body HTML into Typst markup.
//!
//! The fragment is parsed by `scraper`; the parse tree is handed to the
//! converter as its nodes in document order, each with its depth (number of
//! ancestors). The converter walks that sequence with a stack of open
//! elements: an element's closing markup is emitted when the first node that
//! is not one of its descendants arrives, or at the end.
//!
//! The common reading subset is mapped (paragraphs, headings, bold/italic,
//! links, lists, blockquotes, images, rules, code); anything else is flattened
//! to its children.
use vstd::prelude::*;

use crate::render::typst_doc::{escape, esc_char, push_escaped, push_escaped_chars, EscapeMode};
use crate::text::{
    char_is_ws, chars_of, extend_str, is_ws, lemma_trim_edges, str_eq, string_of, trim, trim_chars,
    trim_end, trim_start, truncate_trailing_ws,
};

verus! {

// ---------------------------------------------------------------------------
// The parsed fragment
// ---------------------------------------------------------------------------

/// One node of a parsed HTML fragment, in document order.
#[derive(Debug, Clone)]
pub struct HtmlNode {
    /// Number of ancestors; a child sits one level below its parent.
    pub depth: usize,
    pub kind: HtmlNodeKind,
}

#[derive(Debug, Clone)]
pub enum HtmlNodeKind {
    Text(String),
    /// An element with its tag name and its `href` and `src` attributes.
    Element { name: String, href: Option<String>, src: Option<String> },
    /// Comments, doctypes and the like: they produce nothing.
    Other,
}

/// The nodes that `scraper` produces for a fragment: the root `<html>`
/// element and all its descendants, in document order.
pub uninterp spec fn fragment_nodes(html: Seq<char>) -> Seq<HtmlNode>;

/// Parses `html` with `scraper::Html::parse_fragment` and lists the root
/// element's descendants (`descendants()`, the root first) as plain values:
/// the depth is the number of ancestors, text nodes carry their text, elements
/// their name and their `href` / `src` attributes. What the parser builds is
/// named, not stated.
#[verifier::external_body]
fn parse_fragment_nodes(html: &str) -> (r: Vec<HtmlNode>)
    ensures
        r@ == fragment_nodes(html@),
{
    let doc = scraper::Html::parse_fragment(html);
    let root = doc.root_element();
    root.descendants().map(|n| HtmlNode {
        depth: n.ancestors().count(),
        kind: match n.value() {
            scraper::Node::Text(t) => HtmlNodeKind::Text(t.text.to_string()),
            scraper::Node::Element(e) => HtmlNodeKind::Element {
                name: e.name().to_string(),
                href: e.attr("href").map(|s| s.to_string()),
                src: e.attr("src").map(|s| s.to_string()),
            },
            _ => HtmlNodeKind::Other,
        },
    }).collect()
}

pub open spec fn opt_view(o: Option<String>) -> Option<Seq<char>> {
    match o {
        Some(s) => Some(s@),
        None => None,
    }
}

// ---------------------------------------------------------------------------
// Walk state
// ---------------------------------------------------------------------------

/// Which list an `<li>` belongs to.
#[derive(Debug, Clone, Copy, PartialEq, Eq, Structural)]
pub enum ListCtx {
    Outside,
    Unordered,
    Ordered,
}

/// What closing an element emits.
#[derive(Debug, Clone, Copy, PartialEq, Eq, Structural)]
pub enum Close {
    Nothing,
    /// A block gap.
    Gap,
    /// `]`.
    Bracket,
    /// `]` and a block gap.
    BracketGap,
    /// `#raw("...")` of the collected text.
    RawInline,
    /// `#raw(block: true, "...")` of the collected text, and a block gap.
    RawBlock,
    /// Nothing; the element's descendants are skipped.
    Ignore,
}

/// An open element.
#[derive(Debug, Clone, Copy, PartialEq, Eq, Structural)]
pub struct Frame {
    pub depth: usize,
    pub close: Close,
    /// The list context its children see.
    pub list: ListCtx,
}

/// The walk state: markup so far, open elements, text collected for `#raw`.
pub type Walk = (Seq<char>, Seq<Frame>, Seq<char>);

pub open spec fn is_raw(c: Close) -> bool {
    c == Close::RawInline || c == Close::RawBlock
}

/// The innermost open element swallows its descendants (`code`, `pre`,
/// `img`, `br`, `hr`).
pub open spec fn absorbing(stack: Seq<Frame>) -> bool {
    stack.len() > 0 && (is_raw(stack.last().close) || stack.last().close == Close::Ignore)
}

pub open spec fn list_ctx(stack: Seq<Frame>) -> ListCtx {
    if stack.len() == 0 {
        ListCtx::Outside
    } else {
        stack.last().list
    }
}

// ---------------------------------------------------------------------------
// Markup pieces
// ---------------------------------------------------------------------------

pub open spec fn ends_ws(out: Seq<char>) -> bool {
    out.len() > 0 && (out.last() == ' ' || out.last() == '\n')
}

/// One source character: whitespace runs collapse to one space, everything
/// else is escaped for Typst markup.
pub open spec fn text_char(out: Seq<char>, c: char) -> Seq<char> {
    if is_ws(c) {
        if ends_ws(out) {
            out
        } else {
            out.push(' ')
        }
    } else {
        out + esc_char(c, EscapeMode::Body)
    }
}

pub open spec fn text_out(out: Seq<char>, s: Seq<char>) -> Seq<char>
    decreases s.len(),
{
    if s.len() == 0 {
        out
    } else {
        text_char(text_out(out, s.drop_last()), s.last())
    }
}

/// Source text never breaks a paragraph: whitespace, newlines included,
/// collapses to spaces, so what a text node appends holds no newline.
pub proof fn text_never_breaks_paragraphs(out: Seq<char>, s: Seq<char>)
    ensures
        out.len() <= text_out(out, s).len(),
        text_out(out, s).take(out.len() as int) == out,
        forall|i: int| out.len() <= i < text_out(out, s).len() ==> #[trigger] text_out(out, s)[i] != '\n',
    decreases s.len(),
{
    if s.len() > 0 {
        text_never_breaks_paragraphs(out, s.drop_last());
        let p = text_out(out, s.drop_last());
        let c = s.last();
        let q = text_out(out, s);
        assert(q == text_char(p, c));
        assert(p.take(out.len() as int) == out);
        if !is_ws(c) {
            assert(c != '\n');
            assert(q =~= p + esc_char(c, EscapeMode::Body));
        }
        assert(q.take(out.len() as int) =~= p.take(out.len() as int));
        assert forall|i: int| out.len() <= i < q.len() implies #[trigger] q[i] != '\n' by {
            if i < p.len() {
                assert(q[i] == p[i]);
            }
        }
    }
}

/// Trailing whitespace dropped, then a blank line unless nothing is left.
pub open spec fn block_gap(out: Seq<char>) -> Seq<char> {
    let t = trim_end(out);
    if t.len() == 0 {
        t
    } else {
        t + "\n\n"@
    }
}

pub open spec fn heading_open(size: Seq<char>) -> Seq<char> {
    "#text(font: \"Lora\", weight: \"semibold\", size: "@ + size + ", fill: heading-col)["@
}

pub open spec fn link_open(href: Seq<char>) -> Seq<char> {
    "#link(\""@ + escape(href, EscapeMode::StrLit) + "\")["@
}

pub open spec fn image_markup(src: Seq<char>) -> Seq<char> {
    "#block(image(\"/assets/"@ + escape(src, EscapeMode::StrLit) + "\", width: 100%))"@
}

pub open spec fn raw_inline(t: Seq<char>) -> Seq<char> {
    "#raw(\""@ + escape(t, EscapeMode::StrLit) + "\")"@
}

pub open spec fn raw_block(t: Seq<char>) -> Seq<char> {
    "#raw(block: true, \""@ + escape(t, EscapeMode::StrLit) + "\")"@
}

// ---------------------------------------------------------------------------
// Tags
// ---------------------------------------------------------------------------

#[derive(Debug, Clone, Copy, PartialEq, Eq, Structural)]
pub enum TagClass {
    Block,
    Heading12,
    Heading11,
    Heading10,
    Strong,
    Emph,
    Link,
    Unordered,
    Ordered,
    Item,
    Quote,
    Image,
    Figure,
    Caption,
    Break,
    Rule,
    Code,
    Pre,
    Other,
}

pub open spec fn tag_class(n: Seq<char>) -> TagClass {
    if n == "p"@ || n == "div"@ || n == "section"@ || n == "article"@ {
        TagClass::Block
    } else if n == "h1"@ || n == "h2"@ {
        TagClass::Heading12
    } else if n == "h3"@ {
        TagClass::Heading11
    } else if n == "h4"@ || n == "h5"@ || n == "h6"@ {
        TagClass::Heading10
    } else if n == "strong"@ || n == "b"@ {
        TagClass::Strong
    } else if n == "em"@ || n == "i"@ {
        TagClass::Emph
    } else if n == "a"@ {
        TagClass::Link
    } else if n == "ul"@ {
        TagClass::Unordered
    } else if n == "ol"@ {
        TagClass::Ordered
    } else if n == "li"@ {
        TagClass::Item
    } else if n == "blockquote"@ {
        TagClass::Quote
    } else if n == "img"@ {
        TagClass::Image
    } else if n == "figure"@ {
        TagClass::Figure
    } else if n == "figcaption"@ {
        TagClass::Caption
    } else if n == "br"@ {
        TagClass::Break
    } else if n == "hr"@ {
        TagClass::Rule
    } else if n == "code"@ || n == "tt"@ || n == "kbd"@ || n == "samp"@ {
        TagClass::Code
    } else if n == "pre"@ {
        TagClass::Pre
    } else {
        TagClass::Other
    }
}

pub fn classify_tag(n: &str) -> (t: TagClass)
    ensures
        t == tag_class(n@),
{
    if str_eq(n, "p") || str_eq(n, "div") || str_eq(n, "section") || str_eq(n, "article") {
        TagClass::Block
    } else if str_eq(n, "h1") || str_eq(n, "h2") {
        TagClass::Heading12
    } else if str_eq(n, "h3") {
        TagClass::Heading11
    } else if str_eq(n, "h4") || str_eq(n, "h5") || str_eq(n, "h6") {
        TagClass::Heading10
    } else if str_eq(n, "strong") || str_eq(n, "b") {
        TagClass::Strong
    } else if str_eq(n, "em") || str_eq(n, "i") {
        TagClass::Emph
    } else if str_eq(n, "a") {
        TagClass::Link
    } else if str_eq(n, "ul") {
        TagClass::Unordered
    } else if str_eq(n, "ol") {
        TagClass::Ordered
    } else if str_eq(n, "li") {
        TagClass::Item
    } else if str_eq(n, "blockquote") {
        TagClass::Quote
    } else if str_eq(n, "img") {
        TagClass::Image
    } else if str_eq(n, "figure") {
        TagClass::Figure
    } else if str_eq(n, "figcaption") {
        TagClass::Caption
    } else if str_eq(n, "br") {
        TagClass::Break
    } else if str_eq(n, "hr") {
        TagClass::Rule
    } else if str_eq(n, "code") || str_eq(n, "tt") || str_eq(n, "kbd") || str_eq(n, "samp") {
        TagClass::Code
    } else if str_eq(n, "pre") {
        TagClass::Pre
    } else {
        TagClass::Other
    }
}

// ---------------------------------------------------------------------------
// The walk
// ---------------------------------------------------------------------------

/// What closing an element appends to `out`.
pub open spec fn close_out(out: Seq<char>, c: Close, acc: Seq<char>) -> Seq<char> {
    match c {
        Close::Nothing => out,
        Close::Ignore => out,
        Close::Gap => block_gap(out),
        Close::Bracket => out.push(']'),
        Close::BracketGap => block_gap(out.push(']')),
        Close::RawInline => out + raw_inline(acc),
        Close::RawBlock => block_gap(out + raw_block(acc)),
    }
}

pub open spec fn pop_frame(w: Walk) -> Walk {
    (close_out(w.0, w.1.last().close, w.2), w.1.drop_last(), w.2)
}

/// Close every open element at `depth` or deeper.
pub open spec fn close_to(w: Walk, depth: int) -> Walk
    decreases w.1.len(),
{
    if w.1.len() > 0 && w.1.last().depth >= depth {
        close_to(pop_frame(w), depth)
    } else {
        w
    }
}

pub open spec fn frame(depth: usize, close: Close, list: ListCtx) -> Frame {
    Frame { depth, close, list }
}

/// Opening an element at `d`.
pub open spec fn open_element(
    w: Walk,
    d: usize,
    name: Seq<char>,
    href: Option<Seq<char>>,
    src: Option<Seq<char>>,
) -> Walk {
    let (out, stack, acc) = w;
    let l = list_ctx(stack);
    match tag_class(name) {
        TagClass::Block => (block_gap(out), stack.push(frame(d, Close::Gap, ListCtx::Outside)), acc),
        TagClass::Heading12 => (
            block_gap(out) + heading_open("12pt"@),
            stack.push(frame(d, Close::BracketGap, ListCtx::Outside)),
            acc,
        ),
        TagClass::Heading11 => (
            block_gap(out) + heading_open("11pt"@),
            stack.push(frame(d, Close::BracketGap, ListCtx::Outside)),
            acc,
        ),
        TagClass::Heading10 => (
            block_gap(out) + heading_open("10pt"@),
            stack.push(frame(d, Close::BracketGap, ListCtx::Outside)),
            acc,
        ),
        TagClass::Strong => (out + "#strong["@, stack.push(frame(d, Close::Bracket, l)), acc),
        TagClass::Emph => (out + "#emph["@, stack.push(frame(d, Close::Bracket, l)), acc),
        TagClass::Link => match href {
            Some(h) => if h.len() > 0 {
                (out + link_open(h), stack.push(frame(d, Close::Bracket, l)), acc)
            } else {
                (out, stack.push(frame(d, Close::Nothing, l)), acc)
            },
            None => (out, stack.push(frame(d, Close::Nothing, l)), acc),
        },
        TagClass::Unordered => (
            block_gap(out),
            stack.push(frame(d, Close::Gap, ListCtx::Unordered)),
            acc,
        ),
        TagClass::Ordered => (block_gap(out), stack.push(frame(d, Close::Gap, ListCtx::Ordered)), acc),
        TagClass::Item => (
            trim_end(out) + (if l == ListCtx::Ordered {
                "\n+ "@
            } else {
                "\n- "@
            }),
            stack.push(frame(d, Close::Nothing, ListCtx::Outside)),
            acc,
        ),
        TagClass::Quote => (
            block_gap(out) + "#quote(block: true)["@,
            stack.push(frame(d, Close::BracketGap, ListCtx::Outside)),
            acc,
        ),
        TagClass::Image => match src {
            Some(s) => (
                block_gap(block_gap(out) + image_markup(s)),
                stack.push(frame(d, Close::Ignore, l)),
                acc,
            ),
            None => (out, stack.push(frame(d, Close::Ignore, l)), acc),
        },
        TagClass::Figure => (block_gap(out), stack.push(frame(d, Close::Gap, ListCtx::Outside)), acc),
        TagClass::Caption => (
            block_gap(out) + "#text(font: \"Hanken Grotesk\", size: 8pt, fill: muted)["@,
            stack.push(frame(d, Close::BracketGap, ListCtx::Outside)),
            acc,
        ),
        TagClass::Break => (out + " \\\n"@, stack.push(frame(d, Close::Ignore, l)), acc),
        TagClass::Rule => (
            block_gap(block_gap(out) + "#line(length: 100%, stroke: 0.5pt + rule-col)"@),
            stack.push(frame(d, Close::Ignore, l)),
            acc,
        ),
        TagClass::Code => (out, stack.push(frame(d, Close::RawInline, l)), Seq::empty()),
        TagClass::Pre => (block_gap(out), stack.push(frame(d, Close::RawBlock, l)), Seq::empty()),
        TagClass::Other => (out, stack.push(frame(d, Close::Nothing, l)), acc),
    }
}

/// One node of the fragment.
pub open spec fn node_step(w: Walk, n: HtmlNode) -> Walk {
    let w1 = close_to(w, n.depth as int);
    if absorbing(w1.1) {
        match n.kind {
            HtmlNodeKind::Text(t) => if is_raw(w1.1.last().close) {
                (w1.0, w1.1, w1.2 + t@)
            } else {
                w1
            },
            _ => w1,
        }
    } else {
        match n.kind {
            HtmlNodeKind::Text(t) => (text_out(w1.0, t@), w1.1, w1.2),
            HtmlNodeKind::Element { name, href, src } => open_element(
                w1,
                n.depth,
                name@,
                opt_view(href),
                opt_view(src),
            ),
            HtmlNodeKind::Other => w1,
        }
    }
}

pub open spec fn walk(nodes: Seq<HtmlNode>) -> Walk
    decreases nodes.len(),
{
    if nodes.len() == 0 {
        (Seq::empty(), Seq::empty(), Seq::empty())
    } else {
        node_step(walk(nodes.drop_last()), nodes.last())
    }
}

/// The markup of a whole fragment, every element closed.
pub open spec fn walk_markup(nodes: Seq<HtmlNode>) -> Seq<char> {
    close_to(walk(nodes), 0).0
}

// ---------------------------------------------------------------------------
// Blank lines
// ---------------------------------------------------------------------------

/// Left fold: output so far and the length of the current newline run.
pub open spec fn blank_state(s: Seq<char>) -> (Seq<char>, nat)
    decreases s.len(),
{
    if s.len() == 0 {
        (Seq::empty(), 0)
    } else {
        let (o, nl) = blank_state(s.drop_last());
        if s.last() == '\n' {
            if nl + 1 <= 2 {
                (o.push('\n'), (nl + 1) as nat)
            } else {
                (o, (nl + 1) as nat)
            }
        } else {
            (o.push(s.last()), 0)
        }
    }
}

/// Runs of three or more newlines collapsed to exactly two.
pub open spec fn collapse_blank_lines(s: Seq<char>) -> Seq<char> {
    blank_state(s).0
}

/// The Typst body for a parsed fragment.
pub open spec fn convert_spec(nodes: Seq<HtmlNode>) -> Seq<char> {
    collapse_blank_lines(trim(walk_markup(nodes)))
}

// ---------------------------------------------------------------------------
// Laws of the blank-line collapsing and of the converted body
// ---------------------------------------------------------------------------

/// No three newlines in a row.
pub open spec fn no_blank_run(s: Seq<char>) -> bool {
    forall|i: int|
        0 <= i && i + 2 < s.len() ==> !(#[trigger] s[i] == '\n' && s[i + 1] == '\n' && s[i + 2]
            == '\n')
}

pub open spec fn trailing_newlines(s: Seq<char>) -> nat
    decreases s.len(),
{
    if s.len() > 0 && s.last() == '\n' {
        1 + trailing_newlines(s.drop_last())
    } else {
        0
    }
}

proof fn lemma_two_trailing(s: Seq<char>)
    requires
        trailing_newlines(s) >= 2,
    ensures
        s.len() >= 2,
        s[s.len() - 1] == '\n',
        s[s.len() - 2] == '\n',
{
    assert(s.len() > 0 && s.last() == '\n');
    let p = s.drop_last();
    assert(trailing_newlines(p) >= 1);
    assert(p.len() > 0 && p.last() == '\n');
    assert(p[p.len() - 1] == s[s.len() - 2]);
}

proof fn lemma_push_keeps_no_run(o: Seq<char>, c: char)
    requires
        no_blank_run(o),
        !(c == '\n' && trailing_newlines(o) >= 2),
    ensures
        no_blank_run(o.push(c)),
{
    let t = o.push(c);
    assert forall|i: int| 0 <= i && i + 2 < t.len() implies !(#[trigger] t[i] == '\n' && t[i + 1]
        == '\n' && t[i + 2] == '\n') by {
        if i + 2 < o.len() {
            assert(t[i] == o[i] && t[i + 1] == o[i + 1] && t[i + 2] == o[i + 2]);
        } else if t[i] == '\n' && t[i + 1] == '\n' && t[i + 2] == '\n' {
            assert(o[o.len() - 1] == '\n' && o[o.len() - 2] == '\n');
            let p = o.drop_last();
            assert(p.last() == o[o.len() - 2]);
            assert(trailing_newlines(p) >= 1);
            assert(trailing_newlines(o) >= 2);
        }
    }
}

proof fn lemma_blank_state(s: Seq<char>)
    ensures
        no_blank_run(blank_state(s).0),
        blank_state(s).1 == trailing_newlines(s),
        trailing_newlines(blank_state(s).0) == (if blank_state(s).1 <= 2 {
            blank_state(s).1
        } else {
            2
        }),
        s.len() > 0 ==> blank_state(s).0.len() > 0 && blank_state(s).0[0] == s[0],
        s.len() > 0 && s.last() != '\n' ==> blank_state(s).0.len() > 0 && blank_state(s).0.last()
            == s.last(),
    decreases s.len(),
{
    if s.len() > 0 {
        let p = s.drop_last();
        lemma_blank_state(p);
        let (o, nl) = blank_state(p);
        let c = s.last();
        if c == '\n' {
            if nl + 1 <= 2 {
                lemma_push_keeps_no_run(o, c);
                assert(o.push(c).drop_last() =~= o);
            }
        } else {
            lemma_push_keeps_no_run(o, c);
            assert(o.push(c).drop_last() =~= o);
        }
        if p.len() > 0 {
            assert(p[0] == s[0]);
        }
    }
}

proof fn lemma_no_run_prefix(s: Seq<char>)
    requires
        no_blank_run(s),
        s.len() > 0,
    ensures
        no_blank_run(s.drop_last()),
{
    let p = s.drop_last();
    assert forall|i: int| 0 <= i && i + 2 < p.len() implies !(#[trigger] p[i] == '\n' && p[i + 1]
        == '\n' && p[i + 2] == '\n') by {
        assert(p[i] == s[i] && p[i + 1] == s[i + 1] && p[i + 2] == s[i + 2]);
    }
}

/// After collapsing, no run of three newlines is left.
pub proof fn collapse_leaves_no_blank_run(s: Seq<char>)
    ensures
        no_blank_run(collapse_blank_lines(s)),
{
    lemma_blank_state(s);
}

/// Text without a run of three newlines is left as it is.
pub proof fn collapse_keeps_clean_text(s: Seq<char>)
    requires
        no_blank_run(s),
    ensures
        collapse_blank_lines(s) == s,
    decreases s.len(),
{
    if s.len() > 0 {
        let p = s.drop_last();
        lemma_no_run_prefix(s);
        collapse_keeps_clean_text(p);
        lemma_blank_state(p);
        if s.last() == '\n' && trailing_newlines(p) >= 2 {
            lemma_two_trailing(p);
            assert(s[p.len() - 2] == '\n' && s[p.len() - 1] == '\n' && s[p.len() as int] == '\n');
        }
        assert(p.push(s.last()) =~= s);
    }
}

/// Collapsing twice is collapsing once.
pub proof fn collapse_is_idempotent(s: Seq<char>)
    ensures
        collapse_blank_lines(collapse_blank_lines(s)) == collapse_blank_lines(s),
{
    collapse_leaves_no_blank_run(s);
    collapse_keeps_clean_text(collapse_blank_lines(s));
}

/// A converted body never starts or ends with whitespace and holds no run of
/// three newlines (at most one blank line between blocks).
pub proof fn converted_body_is_clean(nodes: Seq<HtmlNode>)
    ensures
        no_blank_run(convert_spec(nodes)),
        convert_spec(nodes).len() == 0 || (!is_ws(convert_spec(nodes)[0]) && !is_ws(
            convert_spec(nodes).last(),
        )),
{
    let t = trim(walk_markup(nodes));
    lemma_trim_edges(walk_markup(nodes));
    lemma_blank_state(t);
}

/// Plain text: no whitespace and nothing Typst would read as markup.
pub open spec fn plain_text(x: Seq<char>) -> bool {
    forall|i: int| 0 <= i < x.len() ==> !is_ws(#[trigger] x[i]) && !crate::render::typst_doc::needs_escape(x[i], EscapeMode::Body)
}

proof fn lemma_plain_text_out(out: Seq<char>, x: Seq<char>)
    requires
        plain_text(x),
    ensures
        text_out(out, x) == out + x,
    decreases x.len(),
{
    if x.len() > 0 {
        let p = x.drop_last();
        assert(plain_text(p)) by {
            assert forall|i: int| 0 <= i < p.len() implies !is_ws(#[trigger] p[i]) && !crate::render::typst_doc::needs_escape(p[i], EscapeMode::Body) by {
                assert(p[i] == x[i]);
            }
        }
        lemma_plain_text_out(out, p);
        assert(!is_ws(x[x.len() - 1]));
        assert(out + p + seq![x.last()] =~= out + x);
    }
}

/// A paragraph whose only child is an `<em>` or an `<i>` element holding one
/// text node converts to that text inside `#emph[...]`: both tags mean
/// emphasis. Plain text comes through unchanged: `<p><i>X</i></p>` gives
/// `#emph[X]`.
pub proof fn emphasis_tags_convert_to_emph(nodes: Seq<HtmlNode>, x: Seq<char>)
    requires
        nodes.len() == 3,
        nodes[0].kind is Element && nodes[0].kind->name@ == "p"@,
        nodes[1].kind is Element && (nodes[1].kind->name@ == "em"@ || nodes[1].kind->name@ == "i"@),
        nodes[2].kind is Text && nodes[2].kind->Text_0@ == x,
        nodes[1].depth == nodes[0].depth + 1,
        nodes[2].depth == nodes[1].depth + 1,
    ensures
        convert_spec(nodes) == text_out("#emph["@, x).push(']'),
        plain_text(x) ==> convert_spec(nodes) == "#emph["@ + x + "]"@,
{
    reveal_strlit("p");
    reveal_strlit("div");
    reveal_strlit("section");
    reveal_strlit("article");
    reveal_strlit("h1");
    reveal_strlit("h2");
    reveal_strlit("h3");
    reveal_strlit("h4");
    reveal_strlit("h5");
    reveal_strlit("h6");
    reveal_strlit("strong");
    reveal_strlit("b");
    reveal_strlit("em");
    reveal_strlit("i");
    reveal_strlit("#emph[");
    reveal_strlit("]");
    reveal_strlit("\n\n");
    let d = nodes[0].depth;
    let n1 = nodes[1].kind->name@;
    assert(tag_class("p"@) == TagClass::Block);
    assert(tag_class(n1) == TagClass::Emph) by {
        assert(n1.len() <= 2);
        assert(n1[0] == 'e' || n1[0] == 'i');
    }
    let e: Seq<char> = Seq::empty();
    let w0: Walk = (e, Seq::empty(), e);
    assert(nodes.take(1).drop_last() =~= Seq::<HtmlNode>::empty());
    assert(nodes.take(2).drop_last() =~= nodes.take(1));
    assert(nodes.drop_last() =~= nodes.take(2));
    assert(block_gap(e) =~= e);
    let s1 = seq![frame(d, Close::Gap, ListCtx::Outside)];
    let w1: Walk = (e, s1, e);
    assert(walk(nodes.take(1)) == w1) by {
        assert(walk(Seq::<HtmlNode>::empty()) == w0);
        assert(close_to(w0, d as int) == w0);
        assert(Seq::<Frame>::empty().push(frame(d, Close::Gap, ListCtx::Outside)) =~= s1);
    }
    let s2 = s1.push(frame((d + 1) as usize, Close::Bracket, ListCtx::Outside));
    let w2: Walk = ("#emph["@, s2, e);
    assert(walk(nodes.take(2)) == w2) by {
        assert(close_to(w1, d + 1) == w1);
        assert(e + "#emph["@ =~= "#emph["@);
    }
    let t = text_out("#emph["@, x);
    let w3: Walk = (t, s2, e);
    assert(walk(nodes) == w3) by {
        assert(close_to(w2, d + 2) == w2);
    }
    text_never_breaks_paragraphs("#emph["@, x);
    let tb = t.push(']');
    assert(tb.last() == ']');
    assert(trim_end(tb) == tb);
    let g = tb + "\n\n"@;
    assert(s2.drop_last() =~= s1);
    assert(s1.drop_last() =~= Seq::<Frame>::empty());
    assert(pop_frame(w3) == (tb, s1, e));
    assert(pop_frame((tb, s1, e)) == (g, Seq::<Frame>::empty(), e));
    assert(walk_markup(nodes) == g) by {
        assert(close_to(w3, 0) == close_to((tb, s1, e), 0));
        assert(close_to((tb, s1, e), 0) == close_to((g, Seq::<Frame>::empty(), e), 0));
        assert(close_to((g, Seq::<Frame>::empty(), e), 0) == (g, Seq::<Frame>::empty(), e));
    }
    assert(trim_end(g) == tb) by {
        let g1 = g.drop_last();
        assert(g1.drop_last() =~= tb);
        assert(g.last() == '\n');
        assert(is_ws(g.last()));
        assert(g1.last() == '\n');
        assert(is_ws(g1.last()));
        assert(trim_end(g) == trim_end(g1));
        assert(trim_end(g1) == trim_end(tb));
    }
    assert(tb[0] == '#') by {
        assert(t.take(6) == "#emph["@);
        assert(t[0] == t.take(6)[0]);
    }
    assert(trim_start(tb) == tb);
    assert(trim(g) == tb);
    assert(no_blank_run(tb)) by {
        assert forall|i: int| 0 <= i < tb.len() implies #[trigger] tb[i] != '\n' by {
            if i < 6 {
                assert(t.take(6)[i] == t[i]);
            } else if i < t.len() {
            }
        }
    }
    collapse_keeps_clean_text(tb);
    if plain_text(x) {
        lemma_plain_text_out("#emph["@, x);
        assert(tb =~= "#emph["@ + x + "]"@);
    }
}

// ---------------------------------------------------------------------------
// Executable walk
// ---------------------------------------------------------------------------

fn ends_ws_exec(out: &Vec<char>) -> (r: bool)
    ensures
        r == ends_ws(out@),
{
    out.len() > 0 && (out[out.len() - 1] == ' ' || out[out.len() - 1] == '\n')
}

/// Append source text with whitespace collapsing and markup escaping.
fn text(out: &mut Vec<char>, t: &str)
    ensures
        final(out)@ == text_out(old(out)@, t@),
{
    let ghost start = out@;
    let cs = chars_of(t);
    let mut i: usize = 0;
    while i < cs.len()
        invariant
            i <= cs.len(),
            cs@ == t@,
            out@ == text_out(start, cs@.take(i as int)),
        decreases cs.len() - i,
    {
        let c = cs[i];
        if char_is_ws(c) {
            if !ends_ws_exec(out) {
                out.push(' ');
            }
        } else {
            push_escaped(out, c, EscapeMode::Body);
        }
        proof {
            assert(cs@.take(i + 1).drop_last() =~= cs@.take(i as int));
        }
        i = i + 1;
    }
    assert(cs@.take(cs.len() as int) =~= cs@);
}

fn push_block_gap(out: &mut Vec<char>)
    ensures
        final(out)@ == block_gap(old(out)@),
{
    truncate_trailing_ws(out);
    if out.len() > 0 {
        extend_str(out, "\n\n");
    }
}

/// Escape a string for a Typst double-quoted string literal.
fn esc_typst_str(s: &str) -> (r: String)
    ensures
        r@ == escape(s@, EscapeMode::StrLit),
{
    let cs = chars_of(s);
    let mut out: Vec<char> = Vec::new();
    push_escaped_chars(&mut out, &cs, EscapeMode::StrLit);
    assert(Seq::<char>::empty() + escape(s@, EscapeMode::StrLit) =~= escape(s@, EscapeMode::StrLit));
    string_of(&out)
}

fn push_escaped_str(out: &mut Vec<char>, s: &str)
    ensures
        final(out)@ == old(out)@ + escape(s@, EscapeMode::StrLit),
{
    let e = esc_typst_str(s);
    extend_str(out, e.as_str());
}

fn push_close(out: &mut Vec<char>, c: Close, acc: &Vec<char>)
    ensures
        final(out)@ == close_out(old(out)@, c, acc@),
{
    let ghost start = out@;
    match c {
        Close::Nothing => {},
        Close::Ignore => {},
        Close::Gap => push_block_gap(out),
        Close::Bracket => out.push(']'),
        Close::BracketGap => {
            out.push(']');
            push_block_gap(out);
        },
        Close::RawInline => {
            extend_str(out, "#raw(\"");
            push_escaped_chars(out, acc, EscapeMode::StrLit);
            extend_str(out, "\")");
            assert(out@ =~= start + raw_inline(acc@));
        },
        Close::RawBlock => {
            extend_str(out, "#raw(block: true, \"");
            push_escaped_chars(out, acc, EscapeMode::StrLit);
            extend_str(out, "\")");
            assert(out@ =~= start + raw_block(acc@));
            push_block_gap(out);
        },
    }
}

/// Close every open element at `depth` or deeper.
fn close_open(out: &mut Vec<char>, stack: &mut Vec<Frame>, acc: &Vec<char>, depth: usize)
    ensures
        (final(out)@, final(stack)@, acc@) == close_to((old(out)@, old(stack)@, acc@), depth as int),
{
    let ghost target = close_to((out@, stack@, acc@), depth as int);
    while stack.len() > 0 && stack[stack.len() - 1].depth >= depth
        invariant
            close_to((out@, stack@, acc@), depth as int) == target,
        decreases stack.len(),
    {
        let f = stack.pop().unwrap();
        push_close(out, f.close, acc);
    }
}

fn open_element_exec(
    out: &mut Vec<char>,
    stack: &mut Vec<Frame>,
    acc: &mut Vec<char>,
    d: usize,
    name: &str,
    href: &Option<String>,
    src: &Option<String>,
)
    ensures
        (final(out)@, final(stack)@, final(acc)@) == open_element(
            (old(out)@, old(stack)@, old(acc)@),
            d,
            name@,
            opt_view(*href),
            opt_view(*src),
        ),
{
    let ghost start = out@;
    let l = if stack.len() == 0 {
        ListCtx::Outside
    } else {
        stack[stack.len() - 1].list
    };
    match classify_tag(name) {
        TagClass::Block => {
            push_block_gap(out);
            stack.push(Frame { depth: d, close: Close::Gap, list: ListCtx::Outside });
        },
        TagClass::Heading12 => {
            push_block_gap(out);
            extend_str(out, "#text(font: \"Lora\", weight: \"semibold\", size: ");
            extend_str(out, "12pt");
            extend_str(out, ", fill: heading-col)[");
            assert(out@ =~= block_gap(start) + heading_open("12pt"@));
            stack.push(Frame { depth: d, close: Close::BracketGap, list: ListCtx::Outside });
        },
        TagClass::Heading11 => {
            push_block_gap(out);
            extend_str(out, "#text(font: \"Lora\", weight: \"semibold\", size: ");
            extend_str(out, "11pt");
            extend_str(out, ", fill: heading-col)[");
            assert(out@ =~= block_gap(start) + heading_open("11pt"@));
            stack.push(Frame { depth: d, close: Close::BracketGap, list: ListCtx::Outside });
        },
        TagClass::Heading10 => {
            push_block_gap(out);
            extend_str(out, "#text(font: \"Lora\", weight: \"semibold\", size: ");
            extend_str(out, "10pt");
            extend_str(out, ", fill: heading-col)[");
            assert(out@ =~= block_gap(start) + heading_open("10pt"@));
            stack.push(Frame { depth: d, close: Close::BracketGap, list: ListCtx::Outside });
        },
        TagClass::Strong => {
            extend_str(out, "#strong[");
            stack.push(Frame { depth: d, close: Close::Bracket, list: l });
        },
        TagClass::Emph => {
            extend_str(out, "#emph[");
            stack.push(Frame { depth: d, close: Close::Bracket, list: l });
        },
        TagClass::Link => {
            let mut linked = false;
            match href {
                Some(h) => {
                    if !h.as_str().is_empty() {
                        extend_str(out, "#link(\"");
                        push_escaped_str(out, h.as_str());
                        extend_str(out, "\")[");
                        assert(out@ =~= start + link_open(h@));
                        linked = true;
                    }
                },
                None => {},
            }
            if linked {
                stack.push(Frame { depth: d, close: Close::Bracket, list: l });
            } else {
                stack.push(Frame { depth: d, close: Close::Nothing, list: l });
            }
        },
        TagClass::Unordered => {
            push_block_gap(out);
            stack.push(Frame { depth: d, close: Close::Gap, list: ListCtx::Unordered });
        },
        TagClass::Ordered => {
            push_block_gap(out);
            stack.push(Frame { depth: d, close: Close::Gap, list: ListCtx::Ordered });
        },
        TagClass::Item => {
            truncate_trailing_ws(out);
            match l {
                ListCtx::Ordered => extend_str(out, "\n+ "),
                _ => extend_str(out, "\n- "),
            }
            stack.push(Frame { depth: d, close: Close::Nothing, list: ListCtx::Outside });
        },
        TagClass::Quote => {
            push_block_gap(out);
            extend_str(out, "#quote(block: true)[");
            stack.push(Frame { depth: d, close: Close::BracketGap, list: ListCtx::Outside });
        },
        TagClass::Image => {
            match src {
                Some(s) => {
                    push_block_gap(out);
                    let ghost mid = out@;
                    extend_str(out, "#block(image(\"/assets/");
                    push_escaped_str(out, s.as_str());
                    extend_str(out, "\", width: 100%))");
                    assert(out@ =~= mid + image_markup(s@));
                    push_block_gap(out);
                },
                None => {},
            }
            stack.push(Frame { depth: d, close: Close::Ignore, list: l });
        },
        TagClass::Figure => {
            push_block_gap(out);
            stack.push(Frame { depth: d, close: Close::Gap, list: ListCtx::Outside });
        },
        TagClass::Caption => {
            push_block_gap(out);
            extend_str(out, "#text(font: \"Hanken Grotesk\", size: 8pt, fill: muted)[");
            stack.push(Frame { depth: d, close: Close::BracketGap, list: ListCtx::Outside });
        },
        TagClass::Break => {
            extend_str(out, " \\\n");
            stack.push(Frame { depth: d, close: Close::Ignore, list: l });
        },
        TagClass::Rule => {
            push_block_gap(out);
            extend_str(out, "#line(length: 100%, stroke: 0.5pt + rule-col)");
            push_block_gap(out);
            stack.push(Frame { depth: d, close: Close::Ignore, list: l });
        },
        TagClass::Code => {
            acc.clear();
            stack.push(Frame { depth: d, close: Close::RawInline, list: l });
        },
        TagClass::Pre => {
            push_block_gap(out);
            acc.clear();
            stack.push(Frame { depth: d, close: Close::RawBlock, list: l });
        },
        TagClass::Other => {
            stack.push(Frame { depth: d, close: Close::Nothing, list: l });
        },
    }
}

/// Collapse runs of three or more newlines into exactly two.
fn normalize_blank_lines(s: &[char]) -> (r: Vec<char>)
    ensures
        r@ == collapse_blank_lines(s@),
{
    let mut out: Vec<char> = Vec::new();
    let mut nl: usize = 0;
    let mut i: usize = 0;
    while i < s.len()
        invariant
            i <= s.len(),
            nl <= i,
            (out@, nl as nat) == blank_state(s@.take(i as int)),
        decreases s.len() - i,
    {
        let c = s[i];
        proof {
            assert(s@.take(i + 1).drop_last() =~= s@.take(i as int));
        }
        if c == '\n' {
            nl = nl + 1;
            if nl <= 2 {
                out.push(c);
            }
        } else {
            nl = 0;
            out.push(c);
        }
        i = i + 1;
    }
    assert(s@.take(s.len() as int) =~= s@);
    out
}

/// Convert a parsed fragment (the nodes in document order) to Typst markup.
pub fn convert_nodes(nodes: &[HtmlNode]) -> (r: String)
    ensures
        r@ == convert_spec(nodes@),
{
    let mut out: Vec<char> = Vec::new();
    let mut stack: Vec<Frame> = Vec::new();
    let mut acc: Vec<char> = Vec::new();
    let mut i: usize = 0;
    while i < nodes.len()
        invariant
            i <= nodes.len(),
            (out@, stack@, acc@) == walk(nodes@.take(i as int)),
        decreases nodes.len() - i,
    {
        let n = &nodes[i];
        proof {
            assert(nodes@.take(i + 1).drop_last() =~= nodes@.take(i as int));
        }
        close_open(&mut out, &mut stack, &acc, n.depth);
        let absorb = stack.len() > 0 && (stack[stack.len() - 1].close == Close::RawInline
            || stack[stack.len() - 1].close == Close::RawBlock
            || stack[stack.len() - 1].close == Close::Ignore);
        if absorb {
            match &n.kind {
                HtmlNodeKind::Text(t) => {
                    let c = stack[stack.len() - 1].close;
                    if c == Close::RawInline || c == Close::RawBlock {
                        extend_str(&mut acc, t.as_str());
                    }
                },
                _ => {},
            }
        } else {
            match &n.kind {
                HtmlNodeKind::Text(t) => text(&mut out, t.as_str()),
                HtmlNodeKind::Element { name, href, src } => open_element_exec(
                    &mut out,
                    &mut stack,
                    &mut acc,
                    n.depth,
                    name.as_str(),
                    href,
                    src,
                ),
                HtmlNodeKind::Other => {},
            }
        }
        i = i + 1;
    }
    assert(nodes@.take(nodes.len() as int) =~= nodes@);
    close_open(&mut out, &mut stack, &acc, 0);
    let t = trim_chars(&out);
    let r = normalize_blank_lines(&t);
    string_of(&r)
}

/// Convert a body HTML fragment to Typst markup. `img` sources are referenced
/// as `#image("/assets/{key}")`.
pub fn convert(html: &str) -> (r: String)
    ensures
        r@ == convert_spec(fragment_nodes(html@)),
{
    let nodes = parse_fragment_nodes(html);
    convert_nodes(&nodes)
}

} // verus!
