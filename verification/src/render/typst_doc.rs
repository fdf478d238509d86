//! Build the complete Typst source for a reader collection: an index page
//! (masthead + numbered rows linking to each article) followed by the full
//! articles, with a per-page chrome header (nav bar + action band) on every
//! article page. Also the escaping used for Typst string literals and markup.
use vstd::prelude::*;

use crate::theme::{palette_get, palette_view, palette_wf, Palette};
use crate::text::{decimal, extend_chars, extend_str, push_decimal, string_of, chars_of};

verus! {

/// One index row: tap-target into a full article.
#[derive(Debug, Clone)]
pub struct Row {
    pub num: String,
    pub title: String,
    pub author: String,
    pub reading_time: String,
    /// Article anchor, used for the `<art-{anchor}>` link target.
    pub anchor: String,
}

/// One full article. `body` is already-converted Typst markup; `title` and
/// `byline` are plain text.
#[derive(Debug, Clone)]
pub struct Article {
    pub anchor: String,
    pub title: String,
    pub byline: String,
    pub body: String,
}

// ---------------------------------------------------------------------------
// Escaping
// ---------------------------------------------------------------------------

/// What a piece of text is escaped for.
#[derive(Debug, Clone, Copy, PartialEq, Eq, Structural)]
pub enum EscapeMode {
    /// Inside a Typst double-quoted string literal: `\` and `"`.
    StrLit,
    /// Titles and bylines in Typst markup.
    Markup,
    /// Article body text in Typst markup (quotes left as they are).
    Body,
}

pub open spec fn needs_escape(c: char, mode: EscapeMode) -> bool {
    match mode {
        EscapeMode::StrLit => c == '\\' || c == '"',
        EscapeMode::Markup => c == '\\' || c == '#' || c == '$' || c == '*' || c == '_' || c == '`'
            || c == '<' || c == '>' || c == '@' || c == '=' || c == '~' || c == '"' || c == '\''
            || c == '[' || c == ']',
        EscapeMode::Body => c == '\\' || c == '#' || c == '$' || c == '*' || c == '_' || c == '`'
            || c == '<' || c == '>' || c == '@' || c == '=' || c == '~' || c == '[' || c == ']',
    }
}

pub fn char_needs_escape(c: char, mode: EscapeMode) -> (r: bool)
    ensures
        r == needs_escape(c, mode),
{
    match mode {
        EscapeMode::StrLit => c == '\\' || c == '"',
        EscapeMode::Markup => c == '\\' || c == '#' || c == '$' || c == '*' || c == '_' || c == '`'
            || c == '<' || c == '>' || c == '@' || c == '=' || c == '~' || c == '"' || c == '\''
            || c == '[' || c == ']',
        EscapeMode::Body => c == '\\' || c == '#' || c == '$' || c == '*' || c == '_' || c == '`'
            || c == '<' || c == '>' || c == '@' || c == '=' || c == '~' || c == '[' || c == ']',
    }
}

/// One character, backslash-escaped when significant in `mode`.
pub open spec fn esc_char(c: char, mode: EscapeMode) -> Seq<char> {
    if needs_escape(c, mode) {
        seq!['\\', c]
    } else {
        seq![c]
    }
}

pub open spec fn escape(s: Seq<char>, mode: EscapeMode) -> Seq<char>
    decreases s.len(),
{
    if s.len() == 0 {
        Seq::empty()
    } else {
        esc_char(s[0], mode) + escape(s.drop_first(), mode)
    }
}

/// Undo backslash escaping: `\x` stands for `x`.
pub open spec fn unescape(t: Seq<char>) -> Seq<char>
    decreases t.len(),
{
    if t.len() == 0 {
        Seq::empty()
    } else if t[0] == '\\' && t.len() >= 2 {
        seq![t[1]] + unescape(t.skip(2))
    } else {
        seq![t[0]] + unescape(t.drop_first())
    }
}

/// Escaping loses nothing: unescaping the escaped text gives the text back,
/// in every mode.
pub proof fn escape_round_trips(s: Seq<char>, mode: EscapeMode)
    ensures
        unescape(escape(s, mode)) == s,
    decreases s.len(),
{
    if s.len() > 0 {
        escape_round_trips(s.drop_first(), mode);
        let e = escape(s, mode);
        let rest = escape(s.drop_first(), mode);
        if needs_escape(s[0], mode) {
            assert(e.skip(2) =~= rest);
        } else {
            assert(e.drop_first() =~= rest);
        }
        assert(s =~= seq![s[0]] + s.drop_first());
    }
}

/// Append the escaping of one character.
/// Characters Typst reads as markup in body and title text.
pub open spec fn typst_markup_char(c: char) -> bool {
    c == '\\' || c == '#' || c == '$' || c == '*' || c == '_' || c == '`' || c == '<' || c == '>'
        || c == '@' || c == '=' || c == '~' || c == '[' || c == ']'
}

proof fn lemma_escape_concat(a: Seq<char>, b: Seq<char>, mode: EscapeMode)
    ensures
        escape(a + b, mode) == escape(a, mode) + escape(b, mode),
    decreases a.len(),
{
    if a.len() == 0 {
        assert(a + b =~= b);
        assert(escape(a, mode) + escape(b, mode) =~= escape(b, mode));
    } else {
        lemma_escape_concat(a.drop_first(), b, mode);
        assert((a + b).drop_first() =~= a.drop_first() + b);
        assert((a + b)[0] == a[0]);
        assert(escape(a + b, mode) =~= esc_char(a[0], mode) + escape(a.drop_first() + b, mode));
    }
}

/// Escaping text for Typst markup (titles, bylines, body text) writes each
/// markup character of the input with a backslash right before it, in its
/// place: the text escaped up to it, `\` and the character, then the rest
/// escaped. In titles and bylines (`Markup`) quotes are escaped the same way.
pub proof fn markup_chars_are_escaped(s: Seq<char>, mode: EscapeMode, k: int)
    requires
        0 <= k < s.len(),
        mode != EscapeMode::StrLit,
        typst_markup_char(s[k]) || (mode == EscapeMode::Markup && (s[k] == '"' || s[k] == '\'')),
    ensures
        escape(s, mode) == escape(s.take(k), mode) + seq!['\\', s[k]] + escape(s.skip(k + 1), mode),
{
    let one = seq![s[k]];
    assert(s =~= s.take(k) + (one + s.skip(k + 1)));
    lemma_escape_concat(s.take(k), one + s.skip(k + 1), mode);
    lemma_escape_concat(one, s.skip(k + 1), mode);
    assert(one.drop_first() =~= Seq::<char>::empty());
    assert(escape(one, mode) == esc_char(s[k], mode) + escape(Seq::<char>::empty(), mode));
    assert(escape(one, mode) =~= seq!['\\', s[k]]);
    assert(escape(s, mode) =~= escape(s.take(k), mode) + seq!['\\', s[k]] + escape(s.skip(k + 1), mode));
}

pub fn push_escaped(out: &mut Vec<char>, c: char, mode: EscapeMode)
    ensures
        final(out)@ == old(out)@ + esc_char(c, mode),
{
    if char_needs_escape(c, mode) {
        out.push('\\');
    }
    out.push(c);
    assert(final(out)@ =~= old(out)@ + esc_char(c, mode));
}

/// Append the escaping of `s`.
pub fn push_escaped_chars(out: &mut Vec<char>, s: &[char], mode: EscapeMode)
    ensures
        final(out)@ == old(out)@ + escape(s@, mode),
{
    let ghost start = old(out)@;
    let mut i: usize = 0;
    assert(s@.skip(0) =~= s@);
    assert(start + Seq::<char>::empty() =~= start);
    while i < s.len()
        invariant
            i <= s.len(),
            out@ + escape(s@.skip(i as int), mode) == start + escape(s@, mode),
        decreases s.len() - i,
    {
        let ghost before = out@;
        assert(s@.skip(i as int).drop_first() =~= s@.skip(i + 1));
        push_escaped(out, s[i], mode);
        i = i + 1;
        assert(before + escape(s@.skip(i - 1), mode) =~= out@ + escape(s@.skip(i as int), mode));
    }
    assert(s@.skip(i as int) =~= Seq::<char>::empty());
    assert(out@ + Seq::<char>::empty() =~= out@);
}

/// Escape text for a Typst double-quoted string literal (ids, link targets).
pub fn esc_str(s: &str) -> (r: String)
    ensures
        r@ == escape(s@, EscapeMode::StrLit),
{
    let mut v: Vec<char> = Vec::new();
    push_escaped_chars(&mut v, &chars_of(s), EscapeMode::StrLit);
    assert(Seq::<char>::empty() + escape(s@, EscapeMode::StrLit) =~= escape(s@, EscapeMode::StrLit));
    string_of(&v)
}

/// Escape arbitrary text for Typst markup (titles, bylines) so it renders
/// verbatim.
pub fn esc_markup(s: &str) -> (r: String)
    ensures
        r@ == escape(s@, EscapeMode::Markup),
{
    let mut v: Vec<char> = Vec::new();
    push_escaped_chars(&mut v, &chars_of(s), EscapeMode::Markup);
    assert(Seq::<char>::empty() + escape(s@, EscapeMode::Markup) =~= escape(s@, EscapeMode::Markup));
    string_of(&v)
}

// ---------------------------------------------------------------------------
// Pieces of the document
// ---------------------------------------------------------------------------

pub open spec fn quoted_items(items: Seq<Seq<char>>) -> Seq<char>
    decreases items.len(),
{
    if items.len() == 0 {
        Seq::empty()
    } else if items.len() == 1 {
        "\""@ + escape(items[0], EscapeMode::StrLit) + "\""@
    } else {
        quoted_items(items.drop_last()) + ", "@ + "\""@ + escape(items.last(), EscapeMode::StrLit)
            + "\""@
    }
}

/// A Typst string-array literal: `()` when empty, `("a", "b", )` otherwise
/// (the trailing comma keeps a one-element literal an array).
pub open spec fn typst_array_spec(items: Seq<Seq<char>>) -> Seq<char> {
    if items.len() == 0 {
        "()"@
    } else {
        "("@ + quoted_items(items) + ", )"@
    }
}

pub fn typst_array(items: &[String]) -> (r: String)
    ensures
        r@ == typst_array_spec(items@.map_values(|s: String| s@)),
{
    let ghost its = items@.map_values(|s: String| s@);
    if items.len() == 0 {
        return string_of(&chars_of("()"));
    }
    let mut v: Vec<char> = Vec::new();
    extend_str(&mut v, "(");
    let ghost start = v@;
    let mut i: usize = 0;
    while i < items.len()
        invariant
            i <= items.len(),
            its == items@.map_values(|s: String| s@),
            v@ == start + quoted_items(its.take(i as int)),
        decreases items.len() - i,
    {
        let ghost before = v@;
        if i > 0 {
            extend_str(&mut v, ", ");
        }
        let ghost mid = v@;
        extend_str(&mut v, "\"");
        let cs = chars_of(items[i].as_str());
        push_escaped_chars(&mut v, &cs, EscapeMode::StrLit);
        extend_str(&mut v, "\"");
        i = i + 1;
        proof {
            let t = its.take(i as int);
            assert(t.drop_last() =~= its.take(i - 1));
            assert(t.last() == items@[i - 1]@);
            assert(v@ =~= mid + ("\""@ + escape(t.last(), EscapeMode::StrLit) + "\""@));
            if i == 1 {
                assert(its.take(0) =~= Seq::<Seq<char>>::empty());
                assert(mid == before);
                assert(before =~= start);
                assert(t.len() == 1);
                assert(t[0] == t.last());
                assert(quoted_items(t) == "\""@ + escape(t[0], EscapeMode::StrLit) + "\""@);
                assert(v@ =~= start + quoted_items(t));
            } else {
                assert(mid =~= before + ", "@);
                assert(v@ =~= start + quoted_items(t));
            }
        }
    }
    assert(its.take(items.len() as int) =~= its);
    extend_str(&mut v, ", )");
    assert(v@ =~= typst_array_spec(its));
    string_of(&v)
}

/// `rgb("<hex>")` for the palette colour `key`, else `fallback`.
pub open spec fn color_spec(theme: Seq<(Seq<char>, Seq<char>)>, key: Seq<char>, fallback: Seq<char>) -> Seq<char> {
    let hex = match palette_get(theme, key) {
        Some(v) => v,
        None => fallback,
    };
    "rgb(\""@ + hex + "\")"@
}

fn color(theme: &Palette, key: &str, fallback: &str) -> (r: Vec<char>)
    requires
        palette_wf(palette_view(*theme)),
    ensures
        r@ == color_spec(palette_view(*theme), key@, fallback@),
{
    let mut v: Vec<char> = Vec::new();
    extend_str(&mut v, "rgb(\"");
    match theme.get(key) {
        Some(h) => extend_str(&mut v, h.as_str()),
        None => extend_str(&mut v, fallback),
    }
    extend_str(&mut v, "\")");
    assert(v@ =~= color_spec(palette_view(*theme), key@, fallback@));
    v
}

/// The Typst helpers shared by every collection document (state, region
/// metadata, nav bar, action band, page header, article) up to the page size.
pub const CHROME_BODY: &'static str = "

// Current-article state: set at each article's start so the per-page header
// knows which page belongs to which article (Prev/Next + action targets).
#let section-state = state(\"rmreader.section\", \"\")

// Emit a recoverable region rectangle as <region>-labelled metadata.
#let region(name, body) = box[
  #context [
    #metadata((
      name: name,
      page: here().position().page - 1,
      x: here().position().x / 1pt,
      y: here().position().y / 1pt,
      w: measure(body).width / 1pt,
      h: measure(body).height / 1pt,
    )) <region>
  ]
  #body
]

// Indigo filled nav bar: < Prev | Home | Next >. Inert cells are dimmed.
#let nav-bar() = context {
  let sid = section-state.at(here())
  let cur = if sid == \"\" { none } else { order.position(s => s == sid) }
  let prev = if cur == none or cur == 0 { none } else { order.at(cur - 1) }
  let next = if cur == none or cur + 1 >= order.len() { none } else { order.at(cur + 1) }
  let cell(txt, target) = align(center + horizon, if target == none {
    text(font: \"Hanken Grotesk\", size: 8pt, weight: \"semibold\", tracking: 0.04em,
      fill: navfg.transparentize(55%), txt)
  } else {
    link(label(\"art-\" + target),
      text(font: \"Hanken Grotesk\", size: 8pt, weight: \"semibold\", tracking: 0.04em,
        fill: navfg, txt))
  })
  let home = align(center + horizon, link(<index-home>,
    text(font: \"Hanken Grotesk\", size: 8pt, weight: \"semibold\", tracking: 0.04em,
      fill: navfg, \"Home\")))
  // align(horizon, …) centres the row vertically in the fixed-height bar so the
  // labels aren't clipped at the bottom edge.
  block(width: 100%, height: 24pt, fill: navbg, inset: (x: 10pt),
    align(horizon, grid(columns: (1fr, 1fr, 1fr),
      cell([< Prev], prev), home, cell([Next >], next))))
}

// Action band: INBOX | ARCHIVE | LATER | DELETE, indigo on paper. Each cell is a
// full outlined box (adjacent boxes share edges → a continuous bordered row) and
// a recoverable region. Article pages only.
#let action-band() = context {
  let sid = section-state.at(here())
  if sid == \"\" { none } else {
    let cell(lbl, w) = box(width: w, height: 28pt, stroke: 0.8pt + faint-col, inset: 4pt,
      align(center + horizon,
        text(font: \"Hanken Grotesk\", size: 9pt, weight: \"semibold\", tracking: 0.12em,
          fill: heading-col, lbl)))
    grid(columns: (1fr,) * action-labels.len(),
      ..action-labels.map(lbl => layout(size =>
        region(\"action-\" + lbl, cell(lbl, size.width)))))
  }
}

// Per-page chrome: nav bar + action band. Article pages only — on the index
// (no active section) the top margin is reserved (device toolbar) but left blank.
#let page-header() = context {
  if section-state.at(here()) == \"\" { none } else {
    block(width: 100%, height: 112pt)[
      #v(37pt, weak: false)
      #nav-bar()
      #v(20pt, weak: false)
      #action-band()
    ]
  }
}

// One article: mark the section, force a page, then headline/byline/rule/body.
// Emits a <region> metadata recording this article's first page (for page_range
// recovery) and attaches the article link target to the headline.
#let article(id, title-text, byline-text, body) = {
  section-state.update(id)
  pagebreak(weak: true)
  context [#metadata((name: \"art-\" + id, page: here().position().page - 1)) <region>]
  [#block(below: 6pt, text(font: \"Lora\", weight: \"semibold\", size: 16pt,
    fill: heading-col, hyphenate: false, title-text)) #label(\"art-\" + id)]
  block(below: 8pt, text(font: \"Hanken Grotesk\", weight: \"semibold\", size: 9pt,
    fill: byline-col, byline-text))
  block(below: 8pt, line(length: 100%, stroke: 0.5pt + rule-col))
  body
}

#set page(
  width: ";

/// The rest of the page setup after the page height.
pub const PAGE_TAIL: &'static str = "pt,
  margin: (top: 120pt, right: 16pt, bottom: 30pt, left: 16pt),
  fill: paper,
  header-ascent: 8pt,
  header: page-header(),
  footer: none,
)
#set text(font: \"Lora\", size: 9.5pt, fill: ink, lang: \"en\", hyphenate: false)
#set par(leading: 0.5em, spacing: 0.65em, justify: false)
";

/// The ten colour definitions, in order, with their fallbacks.
pub open spec fn colors_spec(t: Seq<(Seq<char>, Seq<char>)>) -> Seq<char> {
    "#let paper = "@ + color_spec(t, "paper"@, "#F3F1EA"@) + "\n#let ink = "@ + color_spec(
        t,
        "ink"@,
        "#1A1A18"@,
    ) + "\n#let heading-col = "@ + color_spec(t, "heading"@, "#2A2F6B"@) + "\n#let accent = "@
        + color_spec(t, "accent"@, "#CF3A2B"@) + "\n#let muted = "@ + color_spec(
        t,
        "muted"@,
        "#5E6166"@,
    ) + "\n#let byline-col = "@ + color_spec(t, "byline"@, "#9C3A1B"@) + "\n#let rule-col = "@
        + color_spec(t, "rule"@, "#E0DDD2"@) + "\n#let faint-col = "@ + color_spec(
        t,
        "faint"@,
        "#9D9C93"@,
    ) + "\n#let navbg = "@ + color_spec(t, "navbg"@, "#2A2F6B"@) + "\n#let navfg = "@
        + color_spec(t, "navfg"@, "#F4F1E8"@)
}

pub open spec fn action_labels_spec() -> Seq<Seq<char>> {
    seq!["INBOX"@, "ARCHIVE"@, "LATER"@, "DELETE"@]
}

/// The article ids in document order (the array literal escapes them once).
pub open spec fn article_anchors(articles: Seq<Article>) -> Seq<Seq<char>> {
    articles.map_values(|a: Article| a.anchor@)
}

/// Everything before the index: colours, the article order, the action
/// labels, the chrome helpers, and the page and text setup.
pub open spec fn preamble_spec(
    w: Seq<char>,
    h: Seq<char>,
    t: Seq<(Seq<char>, Seq<char>)>,
    articles: Seq<Article>,
) -> Seq<char> {
    colors_spec(t) + "\n#let order = "@ + typst_array_spec(article_anchors(articles))
        + "\n#let action-labels = "@ + typst_array_spec(action_labels_spec()) + CHROME_BODY@ + w
        + "pt, height: "@ + h + PAGE_TAIL@
}

pub open spec fn row_spec(r: Row) -> Seq<char> {
    "#link(label(\"art-"@ + escape(r.anchor@, EscapeMode::StrLit)
        + "\"))[#block(below: 0pt, inset: (y: 4pt), stroke: (bottom: 0.5pt + rule-col))[#grid(columns: (14pt, 1fr, auto), column-gutter: 8pt, align: (left + top, left + top, right + top),\ntext(font: \"Lora\", weight: \"semibold\", size: 9pt, fill: accent, \""@
        + escape(r.num@, EscapeMode::StrLit)
        + "\"),\ntext(font: \"Lora\", size: 9.5pt, fill: ink, ["@ + escape(
        r.title@,
        EscapeMode::Markup,
    ) + " — "@ + escape(r.author@, EscapeMode::Markup)
        + "]),\ntext(font: \"Hanken Grotesk\", size: 7.5pt, fill: muted, \""@ + escape(
        r.reading_time@,
        EscapeMode::StrLit,
    ) + "\"))]]\n"@
}

pub open spec fn rows_spec(rows: Seq<Row>) -> Seq<char>
    decreases rows.len(),
{
    if rows.len() == 0 {
        Seq::empty()
    } else {
        rows_spec(rows.drop_last()) + row_spec(rows.last())
    }
}

/// The index page: masthead (collection name + article count) and rows.
pub open spec fn index_spec(collection: Seq<char>, rows: Seq<Row>) -> Seq<char> {
    "#block(above: 14pt, below: 2pt, text(font: \"Fraunces\", weight: \"semibold\", size: 25pt, fill: heading-col, ["@
        + escape(collection, EscapeMode::Markup)
        + "])) #label(\"index-home\")\n#block(below: 12pt, text(font: \"Hanken Grotesk\", size: 7.5pt, tracking: 0.12em, fill: muted, ["@
        + decimal(rows.len()) + " articles · newest first]))\n"@ + rows_spec(rows)
}

pub open spec fn article_spec(a: Article) -> Seq<char> {
    "#article(\""@ + escape(a.anchor@, EscapeMode::StrLit) + "\", ["@ + escape(
        a.title@,
        EscapeMode::Markup,
    ) + "], ["@ + escape(a.byline@, EscapeMode::Markup) + "])[\n"@ + a.body@ + "\n]\n"@
}

pub open spec fn articles_spec(articles: Seq<Article>) -> Seq<char>
    decreases articles.len(),
{
    if articles.len() == 0 {
        Seq::empty()
    } else {
        articles_spec(articles.drop_last()) + article_spec(articles.last())
    }
}

/// The complete Typst source for a collection on a page of the given size
/// (points, as decimal text).
pub open spec fn build_spec(
    w: Seq<char>,
    h: Seq<char>,
    t: Seq<(Seq<char>, Seq<char>)>,
    collection: Seq<char>,
    rows: Seq<Row>,
    articles: Seq<Article>,
) -> Seq<char> {
    preamble_spec(w, h, t, articles) + index_spec(collection, rows) + articles_spec(articles)
}

fn push_color(v: &mut Vec<char>, label: &str, theme: &Palette, key: &str, fallback: &str)
    requires
        palette_wf(palette_view(*theme)),
    ensures
        final(v)@ == old(v)@ + label@ + color_spec(palette_view(*theme), key@, fallback@),
{
    extend_str(v, label);
    let c = color(theme, key, fallback);
    extend_chars(v, &c);
}

fn push_row(v: &mut Vec<char>, r: &Row)
    ensures
        final(v)@ == old(v)@ + row_spec(*r),
{
    extend_str(v, "#link(label(\"art-");
    push_escaped_chars(v, &chars_of(r.anchor.as_str()), EscapeMode::StrLit);
    extend_str(
        v,
        "\"))[#block(below: 0pt, inset: (y: 4pt), stroke: (bottom: 0.5pt + rule-col))[#grid(columns: (14pt, 1fr, auto), column-gutter: 8pt, align: (left + top, left + top, right + top),\ntext(font: \"Lora\", weight: \"semibold\", size: 9pt, fill: accent, \"",
    );
    push_escaped_chars(v, &chars_of(r.num.as_str()), EscapeMode::StrLit);
    extend_str(v, "\"),\ntext(font: \"Lora\", size: 9.5pt, fill: ink, [");
    push_escaped_chars(v, &chars_of(r.title.as_str()), EscapeMode::Markup);
    extend_str(v, " — ");
    push_escaped_chars(v, &chars_of(r.author.as_str()), EscapeMode::Markup);
    extend_str(v, "]),\ntext(font: \"Hanken Grotesk\", size: 7.5pt, fill: muted, \"");
    push_escaped_chars(v, &chars_of(r.reading_time.as_str()), EscapeMode::StrLit);
    extend_str(v, "\"))]]\n");
    assert(final(v)@ =~= old(v)@ + row_spec(*r));
}

/// The index page source.
pub fn build_index(collection: &str, rows: &[Row]) -> (r: String)
    ensures
        r@ == index_spec(collection@, rows@),
{
    let mut v: Vec<char> = Vec::new();
    extend_str(
        &mut v,
        "#block(above: 14pt, below: 2pt, text(font: \"Fraunces\", weight: \"semibold\", size: 25pt, fill: heading-col, [",
    );
    push_escaped_chars(&mut v, &chars_of(collection), EscapeMode::Markup);
    extend_str(
        &mut v,
        "])) #label(\"index-home\")\n#block(below: 12pt, text(font: \"Hanken Grotesk\", size: 7.5pt, tracking: 0.12em, fill: muted, [",
    );
    push_decimal(&mut v, rows.len() as u64);
    extend_str(&mut v, " articles · newest first]))\n");
    let ghost start = v@;
    let mut i: usize = 0;
    while i < rows.len()
        invariant
            i <= rows.len(),
            v@ == start + rows_spec(rows@.take(i as int)),
        decreases rows.len() - i,
    {
        push_row(&mut v, &rows[i]);
        i = i + 1;
        assert(rows@.take(i as int).drop_last() =~= rows@.take(i - 1));
        assert(v@ =~= start + rows_spec(rows@.take(i as int)));
    }
    assert(rows@.take(rows.len() as int) =~= rows@);
    assert(v@ =~= index_spec(collection@, rows@));
    string_of(&v)
}

fn push_article(v: &mut Vec<char>, a: &Article)
    ensures
        final(v)@ == old(v)@ + article_spec(*a),
{
    extend_str(v, "#article(\"");
    push_escaped_chars(v, &chars_of(a.anchor.as_str()), EscapeMode::StrLit);
    extend_str(v, "\", [");
    push_escaped_chars(v, &chars_of(a.title.as_str()), EscapeMode::Markup);
    extend_str(v, "], [");
    push_escaped_chars(v, &chars_of(a.byline.as_str()), EscapeMode::Markup);
    extend_str(v, "])[\n");
    extend_str(v, a.body.as_str());
    extend_str(v, "\n]\n");
    assert(final(v)@ =~= old(v)@ + article_spec(*a));
}

/// Build the complete Typst source for a collection. The page size comes in
/// points, already written as decimal text.
pub fn build(
    page_w: &str,
    page_h: &str,
    theme: &Palette,
    collection: &str,
    rows: &[Row],
    articles: &[Article],
) -> (r: String)
    requires
        palette_wf(palette_view(*theme)),
    ensures
        r@ == build_spec(page_w@, page_h@, palette_view(*theme), collection@, rows@, articles@),
{
    let ghost t = palette_view(*theme);
    let mut v: Vec<char> = Vec::new();
    push_color(&mut v, "#let paper = ", theme, "paper", "#F3F1EA");
    push_color(&mut v, "\n#let ink = ", theme, "ink", "#1A1A18");
    push_color(&mut v, "\n#let heading-col = ", theme, "heading", "#2A2F6B");
    push_color(&mut v, "\n#let accent = ", theme, "accent", "#CF3A2B");
    push_color(&mut v, "\n#let muted = ", theme, "muted", "#5E6166");
    push_color(&mut v, "\n#let byline-col = ", theme, "byline", "#9C3A1B");
    push_color(&mut v, "\n#let rule-col = ", theme, "rule", "#E0DDD2");
    push_color(&mut v, "\n#let faint-col = ", theme, "faint", "#9D9C93");
    push_color(&mut v, "\n#let navbg = ", theme, "navbg", "#2A2F6B");
    push_color(&mut v, "\n#let navfg = ", theme, "navfg", "#F4F1E8");
    assert(v@ =~= colors_spec(t));
    // Ordered article ids for the nav band's Prev/Next resolution.
    let mut order_items: Vec<String> = Vec::new();
    let mut i: usize = 0;
    while i < articles.len()
        invariant
            i <= articles.len(),
            order_items@.len() == i,
            forall|k: int| 0 <= k < i ==> (#[trigger] order_items@[k])@ == articles@[k].anchor@,
        decreases articles.len() - i,
    {
        let e = string_of(&chars_of(articles[i].anchor.as_str()));
        order_items.push(e);
        i = i + 1;
    }
    assert(order_items@.map_values(|s: String| s@) =~= article_anchors(articles@));
    let order = typst_array(&order_items);
    let mut labels: Vec<String> = Vec::new();
    labels.push(string_of(&chars_of("INBOX")));
    labels.push(string_of(&chars_of("ARCHIVE")));
    labels.push(string_of(&chars_of("LATER")));
    labels.push(string_of(&chars_of("DELETE")));
    assert(labels@.map_values(|s: String| s@) =~= action_labels_spec());
    let action_arr = typst_array(&labels);
    extend_str(&mut v, "\n#let order = ");
    extend_str(&mut v, order.as_str());
    extend_str(&mut v, "\n#let action-labels = ");
    extend_str(&mut v, action_arr.as_str());
    extend_str(&mut v, CHROME_BODY);
    extend_str(&mut v, page_w);
    extend_str(&mut v, "pt, height: ");
    extend_str(&mut v, page_h);
    extend_str(&mut v, PAGE_TAIL);
    assert(v@ =~= preamble_spec(page_w@, page_h@, t, articles@));
    let index = build_index(collection, rows);
    extend_str(&mut v, index.as_str());
    let ghost start = v@;
    let mut k: usize = 0;
    while k < articles.len()
        invariant
            k <= articles.len(),
            v@ == start + articles_spec(articles@.take(k as int)),
        decreases articles.len() - k,
    {
        push_article(&mut v, &articles[k]);
        k = k + 1;
        assert(articles@.take(k as int).drop_last() =~= articles@.take(k - 1));
        assert(v@ =~= start + articles_spec(articles@.take(k as int)));
    }
    assert(articles@.take(articles.len() as int) =~= articles@);
    assert(v@ =~= build_spec(page_w@, page_h@, t, collection@, rows@, articles@));
    string_of(&v)
}

} // verus!
