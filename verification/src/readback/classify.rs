//! Turn read-back annotations into a plan of Readwise operations.
//!
//! Two inputs feed one plan and share one per-doc action table, so text- and
//! ink-derived actions merge:
//! - text highlights (snap-to-text, the primary path) carry the exact
//!   highlighted string;
//! - highlighter strokes carry what their page geometry resolved to: the kind
//!   of the action-band cell under the stroke, if any, and the text under it.
//!
//! Per doc: no action means no location change, exactly one distinct action is
//! applied, two or more distinct actions are skipped with a warning. A hit on a
//! page no manifest doc covers is skipped with a warning.
use vstd::prelude::*;

use crate::manifest::{page_doc, EmbeddedDoc, EmbeddedManifest};
use crate::readwise::{
    label_kind, lemma_lex_asym, lemma_lex_irreflexive, lemma_lex_total, lemma_lex_trans, lex_lt,
    ActionKind, HighlightCreate,
};
use crate::text::{
    ascii_lower_seq, chars_eq, chars_eq_str, chars_of, decimal, extend_chars, extend_str,
    lower_ascii, push_decimal, replace_all, replace_chars, string_of, trim, trim_chars,
};

verus! {

/// A snap-to-text highlight: the device reported the highlighted string.
#[derive(Debug, Clone)]
pub struct TextHit {
    pub page: usize,
    pub text: String,
}

/// A highlighter stroke on `page` as its geometry resolved: the action-band
/// cell kind it marks (when its centre lies in the band and it overlaps a
/// cell), and the page text under it.
#[derive(Debug, Clone)]
pub struct StrokeReading {
    pub page: usize,
    pub label: Option<String>,
    pub text: String,
}

/// The set of Readwise operations implied by a document's annotations.
#[derive(Debug, PartialEq)]
pub struct Plan {
    /// (doc id, action), ordered by doc id.
    pub actions: Vec<(String, ActionKind)>,
    pub highlights: Vec<HighlightCreate>,
    pub warnings: Vec<String>,
}

impl Default for Plan {
    fn default() -> (r: Plan)
        ensures
            r.actions@.len() == 0,
            r.highlights@.len() == 0,
            r.warnings@.len() == 0,
    {
        Plan { actions: Vec::new(), highlights: Vec::new(), warnings: Vec::new() }
    }
}

/// A highlight by its text fields: (text, title, author, source_url, category).
pub type HighlightV = (Seq<char>, Seq<char>, Seq<char>, Seq<char>, Seq<char>);

pub open spec fn highlight_view(h: HighlightCreate) -> HighlightV {
    (h.text@, h.title@, h.author@, h.source_url@, h.category@)
}

/// Which actions were labelled on a doc: (inbox, later, archive, delete).
pub type KindSet = (bool, bool, bool, bool);

/// Plan under construction: highlights, warnings, and per-doc action sets
/// ordered by doc id.
pub type State = (Seq<HighlightV>, Seq<Seq<char>>, Seq<(Seq<char>, KindSet)>);

pub open spec fn plan_view(p: Plan) -> (Seq<(Seq<char>, ActionKind)>, Seq<HighlightV>, Seq<Seq<char>>) {
    (
        p.actions@.map_values(|a: (String, ActionKind)| (a.0@, a.1)),
        p.highlights@.map_values(|h: HighlightCreate| highlight_view(h)),
        p.warnings@.map_values(|w: String| w@),
    )
}

// ---------------------------------------------------------------------------
// Small pieces
// ---------------------------------------------------------------------------

/// Map a Reader category to a v2 highlights category (only `books`,
/// `articles`, `tweets` and `podcasts` are accepted by the v2 API).
pub open spec fn v2_category_spec(c: Seq<char>) -> Seq<char> {
    let t = ascii_lower_seq(trim(c));
    if t == "tweet"@ || t == "tweets"@ {
        "tweets"@
    } else if t == "podcast"@ || t == "podcasts"@ {
        "podcasts"@
    } else if t == "book"@ || t == "books"@ || t == "epub"@ {
        "books"@
    } else {
        "articles"@
    }
}

pub fn v2_category(reader_category: &str) -> (r: &'static str)
    ensures
        r@ == v2_category_spec(reader_category@),
{
    let t = lower_ascii(&trim_chars(&chars_of(reader_category)));
    if chars_eq_str(&t, "tweet") || chars_eq_str(&t, "tweets") {
        "tweets"
    } else if chars_eq_str(&t, "podcast") || chars_eq_str(&t, "podcasts") {
        "podcasts"
    } else if chars_eq_str(&t, "book") || chars_eq_str(&t, "books") || chars_eq_str(&t, "epub") {
        "books"
    } else {
        "articles"
    }
}

/// Decode the common HTML entities in highlight text, `&amp;` first so that
/// `&amp;lt;` becomes `&lt;`, not `<`.
pub open spec fn decode_entities_spec(s: Seq<char>) -> Seq<char> {
    let a = replace_all(s, "&amp;"@, "&"@);
    let b = replace_all(a, "&lt;"@, "<"@);
    let c = replace_all(b, "&gt;"@, ">"@);
    let d = replace_all(c, "&quot;"@, "\""@);
    let e = replace_all(d, "&#39;"@, "'"@);
    replace_all(e, "&apos;"@, "'"@)
}

fn replace_lit(s: &Vec<char>, p: &str, r: &str) -> (out: Vec<char>)
    requires
        p@.len() > 0,
    ensures
        out@ == replace_all(s@, p@, r@),
{
    let pv = chars_of(p);
    let rv = chars_of(r);
    replace_chars(s, &pv, &rv)
}

pub fn decode_entities(s: &[char]) -> (r: Vec<char>)
    ensures
        r@ == decode_entities_spec(s@),
{
    proof {
        reveal_strlit("&amp;");
        reveal_strlit("&lt;");
        reveal_strlit("&gt;");
        reveal_strlit("&quot;");
        reveal_strlit("&#39;");
        reveal_strlit("&apos;");
    }
    let mut v: Vec<char> = Vec::new();
    extend_chars(&mut v, s);
    assert(v@ =~= s@);
    let a = replace_lit(&v, "&amp;", "&");
    let b = replace_lit(&a, "&lt;", "<");
    let c = replace_lit(&b, "&gt;", ">");
    let d = replace_lit(&c, "&quot;", "\"");
    let e = replace_lit(&d, "&#39;", "'");
    replace_lit(&e, "&apos;", "'")
}

pub open spec fn highlight_of(text: Seq<char>, d: EmbeddedDoc) -> HighlightV {
    (text, d.title@, d.author@, d.url@, v2_category_spec(d.category@))
}

pub open spec fn warn_text_off(page: usize) -> Seq<char> {
    "text highlight on page "@ + decimal(page as nat) + " not in manifest; skipped"@
}

pub open spec fn warn_text_empty(page: usize) -> Seq<char> {
    "text highlight on page "@ + decimal(page as nat) + " was empty; skipped"@
}

pub open spec fn warn_stroke_off(page: usize) -> Seq<char> {
    "stroke on page "@ + decimal(page as nat) + " not in manifest; skipped"@
}

pub open spec fn warn_stroke_empty(page: usize) -> Seq<char> {
    "content highlight on page "@ + decimal(page as nat) + " recovered no text; skipped"@
}

pub open spec fn warn_multi(id: Seq<char>, n: nat) -> Seq<char> {
    "doc "@ + id + ": "@ + decimal(n) + " distinct action labels highlighted; skipped"@
}

fn page_message(pre: &str, page: usize, post: &str) -> (r: String)
    ensures
        r@ == pre@ + decimal(page as nat) + post@,
{
    let mut v: Vec<char> = Vec::new();
    extend_str(&mut v, pre);
    push_decimal(&mut v, page as u64);
    extend_str(&mut v, post);
    assert(v@ =~= pre@ + decimal(page as nat) + post@);
    string_of(&v)
}

// ---------------------------------------------------------------------------
// The per-doc action table
// ---------------------------------------------------------------------------

pub open spec fn kind_set_add(s: KindSet, k: ActionKind) -> KindSet {
    match k {
        ActionKind::Inbox => (true, s.1, s.2, s.3),
        ActionKind::Later => (s.0, true, s.2, s.3),
        ActionKind::Archive => (s.0, s.1, true, s.3),
        ActionKind::Delete => (s.0, s.1, s.2, true),
    }
}

pub open spec fn kind_count(s: KindSet) -> nat {
    (if s.0 { 1nat } else { 0nat }) + (if s.1 { 1nat } else { 0nat }) + (if s.2 { 1nat } else {
        0nat
    }) + (if s.3 { 1nat } else { 0nat })
}

/// The single kind of a one-element set (first present, in enum order).
pub open spec fn kind_first(s: KindSet) -> ActionKind {
    if s.0 {
        ActionKind::Inbox
    } else if s.1 {
        ActionKind::Later
    } else if s.2 {
        ActionKind::Archive
    } else {
        ActionKind::Delete
    }
}

/// Index of `id` in the table, or where it belongs (first id not below it).
pub open spec fn group_pos(gs: Seq<(Seq<char>, KindSet)>, id: Seq<char>) -> nat
    decreases gs.len(),
{
    if gs.len() == 0 {
        0
    } else if !lex_lt(gs[0].0, id) {
        0
    } else {
        1 + group_pos(gs.drop_first(), id)
    }
}

/// Record that `id` was labelled `k`.
pub open spec fn add_kind(gs: Seq<(Seq<char>, KindSet)>, id: Seq<char>, k: ActionKind) -> Seq<
    (Seq<char>, KindSet),
> {
    let p = group_pos(gs, id) as int;
    if p < gs.len() && gs[p].0 == id {
        gs.update(p, (id, kind_set_add(gs[p].1, k)))
    } else {
        gs.insert(p, (id, kind_set_add((false, false, false, false), k)))
    }
}

// ---------------------------------------------------------------------------
// Folding the hits
// ---------------------------------------------------------------------------

pub open spec fn text_step(st: State, docs: Seq<EmbeddedDoc>, page: usize, text: Seq<char>) -> State {
    match page_doc(docs, page) {
        None => (st.0, st.1.push(warn_text_off(page)), st.2),
        Some(d) => match label_kind(ascii_lower_seq(trim(text))) {
            Some(k) => (st.0, st.1, add_kind(st.2, d.id@, k)),
            None => {
                let t = decode_entities_spec(trim(text));
                if t.len() == 0 {
                    (st.0, st.1.push(warn_text_empty(page)), st.2)
                } else {
                    (st.0.push(highlight_of(t, d)), st.1, st.2)
                }
            },
        },
    }
}

pub open spec fn stroke_step(
    st: State,
    docs: Seq<EmbeddedDoc>,
    page: usize,
    label: Option<Seq<char>>,
    text: Seq<char>,
) -> State {
    match page_doc(docs, page) {
        None => (st.0, st.1.push(warn_stroke_off(page)), st.2),
        Some(d) => match (match label {
            Some(l) => label_kind(ascii_lower_seq(trim(l))),
            None => None,
        }) {
            Some(k) => (st.0, st.1, add_kind(st.2, d.id@, k)),
            None => {
                let t = decode_entities_spec(trim(text));
                if t.len() == 0 {
                    (st.0, st.1.push(warn_stroke_empty(page)), st.2)
                } else {
                    (st.0.push(highlight_of(t, d)), st.1, st.2)
                }
            },
        },
    }
}

pub open spec fn fold_text(docs: Seq<EmbeddedDoc>, hits: Seq<TextHit>) -> State
    decreases hits.len(),
{
    if hits.len() == 0 {
        (Seq::empty(), Seq::empty(), Seq::empty())
    } else {
        text_step(fold_text(docs, hits.drop_last()), docs, hits.last().page, hits.last().text@)
    }
}

pub open spec fn fold_strokes(st: State, docs: Seq<EmbeddedDoc>, hits: Seq<StrokeReading>) -> State
    decreases hits.len(),
{
    if hits.len() == 0 {
        st
    } else {
        let h = hits.last();
        stroke_step(
            fold_strokes(st, docs, hits.drop_last()),
            docs,
            h.page,
            match h.label {
                Some(l) => Some(l@),
                None => None,
            },
            h.text@,
        )
    }
}

/// Resolve the action table into actions and warnings, in doc-id order.
pub open spec fn resolve(gs: Seq<(Seq<char>, KindSet)>) -> (Seq<(Seq<char>, ActionKind)>, Seq<
    Seq<char>,
>)
    decreases gs.len(),
{
    if gs.len() == 0 {
        (Seq::empty(), Seq::empty())
    } else {
        let r = resolve(gs.drop_last());
        let g = gs.last();
        if kind_count(g.1) == 1 {
            (r.0.push((g.0, kind_first(g.1))), r.1)
        } else {
            (r.0, r.1.push(warn_multi(g.0, kind_count(g.1))))
        }
    }
}

/// The plan for a manifest and its hits: (actions, highlights, warnings).
pub open spec fn classify_spec(
    docs: Seq<EmbeddedDoc>,
    text_hits: Seq<TextHit>,
    strokes: Seq<StrokeReading>,
) -> (Seq<(Seq<char>, ActionKind)>, Seq<HighlightV>, Seq<Seq<char>>) {
    let st = fold_strokes(fold_text(docs, text_hits), docs, strokes);
    let r = resolve(st.2);
    (r.0, st.0, st.1 + r.1)
}

// ---------------------------------------------------------------------------
// Executable classification
// ---------------------------------------------------------------------------

struct Builder {
    highlights: Vec<HighlightCreate>,
    warnings: Vec<String>,
    ids: Vec<String>,
    sets: Vec<KindSet>,
}

spec fn table_view(ids: Seq<String>, sets: Seq<KindSet>) -> Seq<(Seq<char>, KindSet)> {
    Seq::new(ids.len(), |i: int| (ids[i]@, sets[i]))
}

spec fn bview(b: Builder) -> State {
    (
        b.highlights@.map_values(|h: HighlightCreate| highlight_view(h)),
        b.warnings@.map_values(|w: String| w@),
        table_view(b.ids@, b.sets@),
    )
}

spec fn bwf(b: Builder) -> bool {
    b.ids@.len() == b.sets@.len()
}

fn kind_add(s: KindSet, k: ActionKind) -> (r: KindSet)
    ensures
        r == kind_set_add(s, k),
{
    match k {
        ActionKind::Inbox => (true, s.1, s.2, s.3),
        ActionKind::Later => (s.0, true, s.2, s.3),
        ActionKind::Archive => (s.0, s.1, true, s.3),
        ActionKind::Delete => (s.0, s.1, s.2, true),
    }
}

proof fn lemma_group_pos_scan(gs: Seq<(Seq<char>, KindSet)>, id: Seq<char>, j: int)
    requires
        0 <= j <= gs.len(),
        forall|k: int| 0 <= k < j ==> lex_lt((#[trigger] gs[k]).0, id),
        j == gs.len() || !lex_lt(gs[j].0, id),
    ensures
        group_pos(gs, id) == j,
    decreases j,
{
    if j > 0 {
        let t = gs.drop_first();
        assert forall|k: int| 0 <= k < j - 1 implies lex_lt((#[trigger] t[k]).0, id) by {
            assert(t[k] == gs[k + 1]);
        }
        if j < gs.len() {
            assert(t[j - 1] == gs[j]);
        }
        lemma_group_pos_scan(t, id, j - 1);
    }
}

fn table_add(b: &mut Builder, id: &String, k: ActionKind)
    requires
        bwf(*old(b)),
    ensures
        bwf(*final(b)),
        bview(*final(b)) == (bview(*old(b)).0, bview(*old(b)).1, add_kind(bview(*old(b)).2, id@, k)),
{
    let ghost gs = bview(*b).2;
    let idv = chars_of(id.as_str());
    let mut j: usize = 0;
    while j < b.ids.len()
        invariant
            bwf(*b),
            j <= b.ids.len(),
            idv@ == id@,
            gs == table_view(b.ids@, b.sets@),
            forall|q: int| 0 <= q < j ==> lex_lt((#[trigger] gs[q]).0, id@),
        ensures
            j <= b.ids.len(),
            forall|q: int| 0 <= q < j ==> lex_lt((#[trigger] gs[q]).0, id@),
            j == b.ids.len() || !lex_lt(gs[j as int].0, id@),
        decreases b.ids.len() - j,
    {
        let cur = chars_of(b.ids[j].as_str());
        if !crate::readwise::chars_lt(&cur, &idv) {
            break;
        }
        j = j + 1;
    }
    proof {
        lemma_group_pos_scan(gs, id@, j as int);
    }
    let found = if j < b.ids.len() {
        let cur = chars_of(b.ids[j].as_str());
        chars_eq(&cur, &idv)
    } else {
        false
    };
    if found {
        let ns = kind_add(b.sets[j], k);
        b.sets.set(j, ns);
        assert(table_view(b.ids@, b.sets@) =~= gs.update(j as int, (id@, kind_set_add(gs[j as int].1, k))));
    } else {
        let ns = kind_add((false, false, false, false), k);
        b.ids.insert(j, id.clone());
        b.sets.insert(j, ns);
        assert(table_view(b.ids@, b.sets@) =~= gs.insert(j as int, (id@, kind_set_add((false, false, false, false), k))));
    }
}

fn push_warning(b: &mut Builder, w: String)
    ensures
        final(b).highlights == old(b).highlights,
        final(b).ids == old(b).ids,
        final(b).sets == old(b).sets,
        bview(*final(b)) == (bview(*old(b)).0, bview(*old(b)).1.push(w@), bview(*old(b)).2),
{
    let ghost before = b.warnings@;
    b.warnings.push(w);
    assert(b.warnings@.map_values(|w: String| w@) =~= before.map_values(|w: String| w@).push(w@));
}

fn push_highlight(b: &mut Builder, text: &Vec<char>, d: &EmbeddedDoc)
    ensures
        final(b).warnings == old(b).warnings,
        final(b).ids == old(b).ids,
        final(b).sets == old(b).sets,
        bview(*final(b)) == (bview(*old(b)).0.push(highlight_of(text@, *d)), bview(*old(b)).1, bview(
            *old(b),
        ).2),
{
    let cat = v2_category(d.category.as_str());
    let h = HighlightCreate {
        text: string_of(text),
        title: d.title.clone(),
        author: d.author.clone(),
        source_url: d.url.clone(),
        category: string_of(&chars_of(cat)),
    };
    let ghost before = b.highlights@;
    b.highlights.push(h);
    assert(b.highlights@.map_values(|h: HighlightCreate| highlight_view(h)) =~= before.map_values(
        |h: HighlightCreate| highlight_view(h),
    ).push(highlight_of(text@, *d)));
}

fn apply_text_hit(b: &mut Builder, m: &EmbeddedManifest, hit: &TextHit)
    requires
        bwf(*old(b)),
    ensures
        bwf(*final(b)),
        bview(*final(b)) == text_step(bview(*old(b)), m.docs@, hit.page, hit.text@),
{
    match m.doc_for_page(hit.page) {
        None => {
            let w = page_message("text highlight on page ", hit.page, " not in manifest; skipped");
            push_warning(b, w);
        },
        Some(doc) => {
            match ActionKind::parse_label(hit.text.as_str()) {
                Some(k) => {
                    table_add(b, &doc.id, k);
                },
                None => {
                    let t = decode_entities(&trim_chars(&chars_of(hit.text.as_str())));
                    if t.len() == 0 {
                        let w = page_message("text highlight on page ", hit.page, " was empty; skipped");
                        push_warning(b, w);
                    } else {
                        push_highlight(b, &t, doc);
                    }
                },
            }
        },
    }
}

fn apply_stroke(b: &mut Builder, m: &EmbeddedManifest, hit: &StrokeReading)
    requires
        bwf(*old(b)),
    ensures
        bwf(*final(b)),
        bview(*final(b)) == stroke_step(
            bview(*old(b)),
            m.docs@,
            hit.page,
            match hit.label {
                Some(l) => Some(l@),
                None => None,
            },
            hit.text@,
        ),
{
    match m.doc_for_page(hit.page) {
        None => {
            let w = page_message("stroke on page ", hit.page, " not in manifest; skipped");
            push_warning(b, w);
        },
        Some(doc) => {
            let kind = match &hit.label {
                Some(l) => ActionKind::parse_label(l.as_str()),
                None => None,
            };
            match kind {
                Some(k) => {
                    table_add(b, &doc.id, k);
                },
                None => {
                    let t = decode_entities(&trim_chars(&chars_of(hit.text.as_str())));
                    if t.len() == 0 {
                        let w = page_message(
                            "content highlight on page ",
                            hit.page,
                            " recovered no text; skipped",
                        );
                        push_warning(b, w);
                    } else {
                        push_highlight(b, &t, doc);
                    }
                },
            }
        },
    }
}

fn count_kinds(s: KindSet) -> (n: u64)
    ensures
        n as nat == kind_count(s),
{
    let mut n: u64 = 0;
    if s.0 {
        n = n + 1;
    }
    if s.1 {
        n = n + 1;
    }
    if s.2 {
        n = n + 1;
    }
    if s.3 {
        n = n + 1;
    }
    n
}

fn first_kind(s: KindSet) -> (k: ActionKind)
    ensures
        k == kind_first(s),
{
    if s.0 {
        ActionKind::Inbox
    } else if s.1 {
        ActionKind::Later
    } else if s.2 {
        ActionKind::Archive
    } else {
        ActionKind::Delete
    }
}

fn multi_message(id: &String, n: u64) -> (r: String)
    ensures
        r@ == warn_multi(id@, n as nat),
{
    let mut v: Vec<char> = Vec::new();
    extend_str(&mut v, "doc ");
    extend_str(&mut v, id.as_str());
    extend_str(&mut v, ": ");
    push_decimal(&mut v, n);
    extend_str(&mut v, " distinct action labels highlighted; skipped");
    assert(v@ =~= warn_multi(id@, n as nat));
    string_of(&v)
}

/// Classify text highlights and resolved strokes against the embedded
/// manifest (see the module documentation for the rules).
pub fn classify(m: &EmbeddedManifest, text_hits: &[TextHit], strokes: &[StrokeReading]) -> (r: Plan)
    ensures
        plan_view(r) == classify_spec(m.docs@, text_hits@, strokes@),
{
    let mut b = Builder {
        highlights: Vec::new(),
        warnings: Vec::new(),
        ids: Vec::new(),
        sets: Vec::new(),
    };
    assert(bview(b).0 =~= Seq::<HighlightV>::empty());
    assert(bview(b).1 =~= Seq::<Seq<char>>::empty());
    assert(bview(b).2 =~= Seq::<(Seq<char>, KindSet)>::empty());
    let mut i: usize = 0;
    while i < text_hits.len()
        invariant
            i <= text_hits.len(),
            bwf(b),
            bview(b) == fold_text(m.docs@, text_hits@.take(i as int)),
        decreases text_hits.len() - i,
    {
        apply_text_hit(&mut b, m, &text_hits[i]);
        i = i + 1;
        assert(text_hits@.take(i as int).drop_last() =~= text_hits@.take(i - 1));
    }
    assert(text_hits@.take(text_hits.len() as int) =~= text_hits@);
    let ghost st0 = bview(b);
    let mut j: usize = 0;
    assert(strokes@.take(0) =~= Seq::<StrokeReading>::empty());
    while j < strokes.len()
        invariant
            j <= strokes.len(),
            bwf(b),
            bview(b) == fold_strokes(st0, m.docs@, strokes@.take(j as int)),
        decreases strokes.len() - j,
    {
        apply_stroke(&mut b, m, &strokes[j]);
        j = j + 1;
        assert(strokes@.take(j as int).drop_last() =~= strokes@.take(j - 1));
    }
    assert(strokes@.take(strokes.len() as int) =~= strokes@);
    let ghost st = bview(b);
    let Builder { highlights, mut warnings, ids, sets } = b;
    let mut actions: Vec<(String, ActionKind)> = Vec::new();
    let ghost w0 = warnings@.map_values(|w: String| w@);
    let mut g: usize = 0;
    while g < ids.len()
        invariant
            ids@.len() == sets@.len(),
            g <= ids.len(),
            st.2 == table_view(ids@, sets@),
            actions@.map_values(|a: (String, ActionKind)| (a.0@, a.1)) == resolve(
                st.2.take(g as int),
            ).0,
            warnings@.map_values(|w: String| w@) == w0 + resolve(st.2.take(g as int)).1,
        decreases ids.len() - g,
    {
        let n = count_kinds(sets[g]);
        let ghost ab = actions@;
        let ghost wb = warnings@;
        assert(st.2.take(g + 1).drop_last() =~= st.2.take(g as int));
        if n == 1 {
            let k = first_kind(sets[g]);
            actions.push((ids[g].clone(), k));
            assert(actions@.map_values(|a: (String, ActionKind)| (a.0@, a.1)) =~= ab.map_values(
                |a: (String, ActionKind)| (a.0@, a.1),
            ).push((ids@[g as int]@, k)));
        } else {
            let w = multi_message(&ids[g], n);
            warnings.push(w);
            assert(warnings@.map_values(|w: String| w@) =~= wb.map_values(|w: String| w@).push(
                warn_multi(ids@[g as int]@, n as nat),
            ));
        }
        g = g + 1;
    }
    assert(st.2.take(ids.len() as int) =~= st.2);
    Plan { actions, highlights, warnings }
}

// ---------------------------------------------------------------------------
// Laws
// ---------------------------------------------------------------------------

/// Doc ids in the action table are strictly increasing.
pub open spec fn ids_increasing(gs: Seq<(Seq<char>, KindSet)>) -> bool {
    forall|i: int, j: int| 0 <= i < j < gs.len() ==> lex_lt(#[trigger] gs[i].0, #[trigger] gs[j].0)
}

proof fn lemma_group_pos_props(gs: Seq<(Seq<char>, KindSet)>, id: Seq<char>)
    ensures
        group_pos(gs, id) <= gs.len(),
        forall|k: int| 0 <= k < group_pos(gs, id) ==> lex_lt((#[trigger] gs[k]).0, id),
        group_pos(gs, id) < gs.len() ==> !lex_lt(gs[group_pos(gs, id) as int].0, id),
    decreases gs.len(),
{
    if gs.len() > 0 && lex_lt(gs[0].0, id) {
        let t = gs.drop_first();
        lemma_group_pos_props(t, id);
        assert forall|k: int| 0 <= k < group_pos(gs, id) implies lex_lt((#[trigger] gs[k]).0, id) by {
            if k > 0 {
                assert(gs[k] == t[k - 1]);
            }
        }
        if group_pos(gs, id) < gs.len() {
            assert(gs[group_pos(gs, id) as int] == t[group_pos(t, id) as int]);
        }
    }
}

proof fn lemma_add_kind_increasing(gs: Seq<(Seq<char>, KindSet)>, id: Seq<char>, k: ActionKind)
    requires
        ids_increasing(gs),
    ensures
        ids_increasing(add_kind(gs, id, k)),
{
    lemma_group_pos_props(gs, id);
    let p = group_pos(gs, id) as int;
    if p < gs.len() && gs[p].0 == id {
        let r = add_kind(gs, id, k);
        assert forall|i: int, j: int| 0 <= i < j < r.len() implies lex_lt(
            #[trigger] r[i].0,
            #[trigger] r[j].0,
        ) by {
            assert(r[i].0 == gs[i].0 && r[j].0 == gs[j].0);
        }
    } else {
        let e = (id, kind_set_add((false, false, false, false), k));
        let r = gs.insert(p, e);
        gs.insert_ensures(p, e);
        if p < gs.len() {
            lemma_lex_total(gs[p].0, id);
        }
        assert forall|i: int, j: int| 0 <= i < j < r.len() implies lex_lt(
            #[trigger] r[i].0,
            #[trigger] r[j].0,
        ) by {
            if j < p {
                assert(r[i] == gs[i] && r[j] == gs[j]);
            } else if i > p {
                assert(r[i] == gs[i - 1] && r[j] == gs[j - 1]);
            } else if j == p {
                assert(r[i] == gs[i]);
            } else if i < p {
                assert(r[i] == gs[i] && r[j] == gs[j - 1]);
                assert(lex_lt(gs[i].0, id));
                lemma_lex_total(gs[p].0, id);
                if j - 1 > p {
                    lemma_lex_trans(gs[i].0, id, gs[p].0);
                    lemma_lex_trans(gs[i].0, gs[p].0, gs[j - 1].0);
                } else {
                    lemma_lex_trans(gs[i].0, id, gs[p].0);
                }
            } else {
                assert(r[j] == gs[j - 1]);
                if j - 1 > p {
                    lemma_lex_trans(id, gs[p].0, gs[j - 1].0);
                }
            }
        }
    }
}

proof fn lemma_fold_increasing(docs: Seq<EmbeddedDoc>, text_hits: Seq<TextHit>, strokes: Seq<StrokeReading>)
    ensures
        ids_increasing(fold_text(docs, text_hits).2),
        ids_increasing(fold_strokes(fold_text(docs, text_hits), docs, strokes).2),
    decreases text_hits.len() + strokes.len(),
{
    if strokes.len() > 0 {
        lemma_fold_increasing(docs, text_hits, strokes.drop_last());
        let st = fold_strokes(fold_text(docs, text_hits), docs, strokes.drop_last());
        let h = strokes.last();
        match page_doc(docs, h.page) {
            Some(d) => {
                let l = match h.label {
                    Some(l) => label_kind(ascii_lower_seq(trim(l@))),
                    None => None,
                };
                if let Some(k) = l {
                    lemma_add_kind_increasing(st.2, d.id@, k);
                }
            },
            None => {},
        }
    } else if text_hits.len() > 0 {
        lemma_fold_increasing(docs, text_hits.drop_last(), strokes);
        let st = fold_text(docs, text_hits.drop_last());
        let h = text_hits.last();
        match page_doc(docs, h.page) {
            Some(d) => {
                if let Some(k) = label_kind(ascii_lower_seq(trim(h.text@))) {
                    lemma_add_kind_increasing(st.2, d.id@, k);
                }
            },
            None => {},
        }
    }
}

proof fn lemma_resolve_actions(gs: Seq<(Seq<char>, KindSet)>)
    requires
        ids_increasing(gs),
    ensures
        forall|i: int, j: int|
            0 <= i < j < resolve(gs).0.len() ==> lex_lt(
                #[trigger] resolve(gs).0[i].0,
                #[trigger] resolve(gs).0[j].0,
            ),
        forall|i: int|
            0 <= i < resolve(gs).0.len() ==> exists|k: int|
                0 <= k < gs.len() && gs[k].0 == (#[trigger] resolve(gs).0[i]).0 && kind_count(gs[k].1) == 1
                    && kind_first(gs[k].1) == resolve(gs).0[i].1,
    decreases gs.len(),
{
    if gs.len() > 0 {
        let p = gs.drop_last();
        assert(ids_increasing(p)) by {
            assert forall|i: int, j: int| 0 <= i < j < p.len() implies lex_lt(
                #[trigger] p[i].0,
                #[trigger] p[j].0,
            ) by {
                assert(p[i] == gs[i] && p[j] == gs[j]);
            }
        }
        lemma_resolve_actions(p);
        let r = resolve(p).0;
        let g = gs.last();
        assert forall|i: int| 0 <= i < r.len() implies lex_lt(#[trigger] r[i].0, g.0) by {
            let k = choose|k: int| 0 <= k < p.len() && p[k].0 == r[i].0 && kind_count(p[k].1) == 1
                && kind_first(p[k].1) == r[i].1;
            assert(gs[k] == p[k]);
        }
        assert forall|i: int| 0 <= i < resolve(gs).0.len() implies exists|k: int|
            0 <= k < gs.len() && gs[k].0 == (#[trigger] resolve(gs).0[i]).0 && kind_count(gs[k].1) == 1
                && kind_first(gs[k].1) == resolve(gs).0[i].1 by {
            if i < r.len() {
                let k = choose|k: int| 0 <= k < p.len() && p[k].0 == r[i].0 && kind_count(p[k].1) == 1
                    && kind_first(p[k].1) == r[i].1;
                assert(gs[k] == p[k]);
            } else {
                assert(gs[gs.len() - 1] == g);
            }
        }
    }
}

proof fn lemma_resolve_complete(gs: Seq<(Seq<char>, KindSet)>)
    ensures
        forall|k: int|
            0 <= k < gs.len() && kind_count(#[trigger] gs[k].1) == 1 ==> exists|i: int|
                0 <= i < resolve(gs).0.len() && resolve(gs).0[i] == (gs[k].0, kind_first(gs[k].1)),
    decreases gs.len(),
{
    if gs.len() > 0 {
        let p = gs.drop_last();
        lemma_resolve_complete(p);
        let r = resolve(p).0;
        assert forall|k: int| 0 <= k < gs.len() && kind_count(#[trigger] gs[k].1) == 1 implies exists|i: int|
            0 <= i < resolve(gs).0.len() && resolve(gs).0[i] == (gs[k].0, kind_first(gs[k].1)) by {
            if k < p.len() {
                assert(gs[k] == p[k]);
                assert(kind_count(p[k].1) == 1);
                let i = choose|i: int| 0 <= i < r.len() && r[i] == (p[k].0, kind_first(p[k].1));
                assert(resolve(gs).0[i] == r[i]);
            } else {
                assert(resolve(gs).0[r.len() as int] == (gs[k].0, kind_first(gs[k].1)));
            }
        }
    }
}

pub open spec fn actions_in_id_order(a: Seq<(Seq<char>, ActionKind)>) -> bool {
    forall|i: int, j: int| 0 <= i < j < a.len() ==> lex_lt(#[trigger] a[i].0, #[trigger] a[j].0)
}

/// The action is the single kind some table entry for its doc holds.
pub open spec fn from_single_kind(gs: Seq<(Seq<char>, KindSet)>, act: (Seq<char>, ActionKind)) -> bool {
    exists|k: int|
        0 <= k < gs.len() && gs[k].0 == act.0 && kind_count(gs[k].1) == 1 && kind_first(gs[k].1)
            == act.1
}

/// The entry's doc gets its single kind as an action.
pub open spec fn acted_on(a: Seq<(Seq<char>, ActionKind)>, g: (Seq<char>, KindSet)) -> bool {
    exists|i: int| 0 <= i < a.len() && a[i] == (g.0, kind_first(g.1))
}

/// The entry's doc gets no action.
pub open spec fn skipped(a: Seq<(Seq<char>, ActionKind)>, g: (Seq<char>, KindSet)) -> bool {
    forall|i: int| 0 <= i < a.len() ==> a[i].0 != g.0
}

/// What resolving a table with increasing ids gives: actions in id order,
/// exactly one per entry with a single kind, that kind, none for the others.
pub open spec fn resolves_exactly(gs: Seq<(Seq<char>, KindSet)>, a: Seq<(Seq<char>, ActionKind)>) -> bool {
    &&& actions_in_id_order(a)
    &&& forall|i: int| 0 <= i < a.len() ==> #[trigger] from_single_kind(gs, a[i])
    &&& forall|k: int| 0 <= k < gs.len() && kind_count(gs[k].1) == 1 ==> #[trigger] acted_on(a, gs[k])
    &&& forall|k: int| 0 <= k < gs.len() && kind_count(gs[k].1) != 1 ==> #[trigger] skipped(a, gs[k])
}

proof fn lemma_only_single_kinds(gs: Seq<(Seq<char>, KindSet)>, a: Seq<(Seq<char>, ActionKind)>, k: int)
    requires
        ids_increasing(gs),
        0 <= k < gs.len(),
        kind_count(gs[k].1) != 1,
        forall|i: int| 0 <= i < a.len() ==> #[trigger] from_single_kind(gs, a[i]),
    ensures
        skipped(a, gs[k]),
{
    assert forall|i: int| 0 <= i < a.len() implies a[i].0 != gs[k].0 by {
        assert(from_single_kind(gs, a[i]));
        let m = choose|m: int|
            0 <= m < gs.len() && gs[m].0 == a[i].0 && kind_count(gs[m].1) == 1 && kind_first(gs[m].1)
                == a[i].1;
        if a[i].0 == gs[k].0 {
            if m < k {
                assert(lex_lt(gs[m].0, gs[k].0));
            } else {
                assert(lex_lt(gs[k].0, gs[m].0));
            }
            lemma_lex_irreflexive(gs[k].0);
        }
    }
}

proof fn lemma_resolve_exact(gs: Seq<(Seq<char>, KindSet)>)
    requires
        ids_increasing(gs),
    ensures
        resolves_exactly(gs, resolve(gs).0),
{
    lemma_resolve_actions(gs);
    lemma_resolve_complete(gs);
    let a = resolve(gs).0;
    assert forall|i: int| 0 <= i < a.len() implies #[trigger] from_single_kind(gs, a[i]) by {
        assert(a[i] == resolve(gs).0[i]);
    }
    assert forall|k: int| 0 <= k < gs.len() && kind_count(gs[k].1) == 1 implies #[trigger] acted_on(a, gs[k]) by {
        assert(kind_count(gs[k].1) == 1);
    }
    assert forall|k: int| 0 <= k < gs.len() && kind_count(gs[k].1) != 1 implies #[trigger] skipped(a, gs[k]) by {
        lemma_only_single_kinds(gs, a, k);
    }
}

/// The per-doc table of labelled action kinds that read-back resolves.
pub open spec fn action_table(
    docs: Seq<EmbeddedDoc>,
    text_hits: Seq<TextHit>,
    strokes: Seq<StrokeReading>,
) -> Seq<(Seq<char>, KindSet)> {
    fold_strokes(fold_text(docs, text_hits), docs, strokes).2
}

/// Read-back applies at most one action per doc: the planned actions are
/// ordered by strictly increasing doc id; a doc gets an action exactly when
/// it was labelled with one distinct kind, and that kind is the action; a doc
/// labelled with two or more distinct kinds gets none.
pub proof fn classify_one_action_per_doc(
    docs: Seq<EmbeddedDoc>,
    text_hits: Seq<TextHit>,
    strokes: Seq<StrokeReading>,
)
    ensures
        resolves_exactly(action_table(docs, text_hits, strokes), classify_spec(docs, text_hits, strokes).0),
{
    lemma_fold_increasing(docs, text_hits, strokes);
    lemma_resolve_exact(action_table(docs, text_hits, strokes));
}

/// The table positions of the docs labelled with more than one distinct
/// kind (entries hold at least one), in table order.
pub open spec fn conflict_positions(gs: Seq<(Seq<char>, KindSet)>) -> Seq<int>
    decreases gs.len(),
{
    if gs.len() == 0 {
        Seq::empty()
    } else {
        let p = conflict_positions(gs.drop_last());
        if kind_count(gs.last().1) != 1 {
            p.push(gs.len() - 1)
        } else {
            p
        }
    }
}

proof fn lemma_resolve_warnings_exact(gs: Seq<(Seq<char>, KindSet)>)
    ensures
        resolve(gs).1.len() == conflict_positions(gs).len(),
        forall|j: int|
            0 <= j < conflict_positions(gs).len() ==> {
                let k = #[trigger] conflict_positions(gs)[j];
                &&& 0 <= k < gs.len()
                &&& kind_count(gs[k].1) != 1
                &&& resolve(gs).1[j] == warn_multi(gs[k].0, kind_count(gs[k].1))
            },
        forall|i: int, j: int|
            0 <= i < j < conflict_positions(gs).len() ==> #[trigger] conflict_positions(gs)[i]
                < #[trigger] conflict_positions(gs)[j],
        forall|k: int|
            0 <= k < gs.len() && kind_count(#[trigger] gs[k].1) != 1 ==> exists|j: int|
                0 <= j < conflict_positions(gs).len() && conflict_positions(gs)[j] == k,
    decreases gs.len(),
{
    if gs.len() > 0 {
        let p = gs.drop_last();
        lemma_resolve_warnings_exact(p);
        let cp = conflict_positions(p);
        let w = resolve(p).1;
        assert forall|j: int| 0 <= j < cp.len() implies gs[cp[j]] == p[cp[j]] by {}
        assert forall|k: int|
            0 <= k < gs.len() && kind_count(#[trigger] gs[k].1) != 1 implies exists|j: int|
                0 <= j < conflict_positions(gs).len() && conflict_positions(gs)[j] == k by {
            if k < p.len() {
                assert(gs[k] == p[k]);
                assert(kind_count(p[k].1) != 1);
                let j = choose|j: int| 0 <= j < cp.len() && cp[j] == k;
                assert(conflict_positions(gs)[j] == cp[j]);
            } else {
                assert(conflict_positions(gs)[cp.len() as int] == k);
            }
        }
    }
}

/// The warnings about pages: hits off the manifest or without text.
pub open spec fn page_warnings(
    docs: Seq<EmbeddedDoc>,
    text_hits: Seq<TextHit>,
    strokes: Seq<StrokeReading>,
) -> Seq<Seq<char>> {
    fold_strokes(fold_text(docs, text_hits), docs, strokes).1
}

pub open spec fn not_doc_warning(w: Seq<char>) -> bool {
    w.len() > 0 && w[0] != 'd'
}

proof fn lemma_page_warning_forms(page: usize)
    ensures
        not_doc_warning(warn_text_off(page)),
        not_doc_warning(warn_text_empty(page)),
        not_doc_warning(warn_stroke_off(page)),
        not_doc_warning(warn_stroke_empty(page)),
{
    reveal_strlit("text highlight on page ");
    reveal_strlit("stroke on page ");
    reveal_strlit("content highlight on page ");
    let d = decimal(page as nat);
    assert(warn_text_off(page)[0] == 't');
    assert(warn_text_empty(page)[0] == 't');
    assert(warn_stroke_off(page)[0] == 's');
    assert(warn_stroke_empty(page)[0] == 'c');
}

proof fn lemma_push_keeps(ws: Seq<Seq<char>>, x: Seq<char>)
    requires
        forall|j: int| 0 <= j < ws.len() ==> not_doc_warning(#[trigger] ws[j]),
        not_doc_warning(x),
    ensures
        forall|j: int| 0 <= j < ws.push(x).len() ==> not_doc_warning(#[trigger] ws.push(x)[j]),
{
    assert forall|j: int| 0 <= j < ws.push(x).len() implies not_doc_warning(#[trigger] ws.push(x)[j]) by {
        if j < ws.len() {
            assert(ws.push(x)[j] == ws[j]);
        }
    }
}

proof fn lemma_page_warnings_not_doc(docs: Seq<EmbeddedDoc>, text_hits: Seq<TextHit>, strokes: Seq<StrokeReading>)
    ensures
        forall|j: int| 0 <= j < fold_text(docs, text_hits).1.len() ==> not_doc_warning(
            #[trigger] fold_text(docs, text_hits).1[j],
        ),
        forall|j: int|
            0 <= j < page_warnings(docs, text_hits, strokes).len() ==> not_doc_warning(
                #[trigger] page_warnings(docs, text_hits, strokes)[j],
            ),
    decreases text_hits.len() + strokes.len(),
{
    if strokes.len() > 0 {
        lemma_page_warnings_not_doc(docs, text_hits, strokes.drop_last());
        let st = fold_strokes(fold_text(docs, text_hits), docs, strokes.drop_last());
        let pw = page_warnings(docs, text_hits, strokes.drop_last());
        assert(st.1 == pw);
        assert forall|j: int| 0 <= j < st.1.len() implies not_doc_warning(#[trigger] st.1[j]) by {
            assert(st.1[j] == pw[j]);
        }
        let h = strokes.last();
        lemma_page_warning_forms(h.page);
        lemma_push_keeps(st.1, warn_stroke_off(h.page));
        lemma_push_keeps(st.1, warn_stroke_empty(h.page));
    } else if text_hits.len() > 0 {
        lemma_page_warnings_not_doc(docs, text_hits.drop_last(), strokes);
        let st = fold_text(docs, text_hits.drop_last());
        let h = text_hits.last();
        lemma_page_warning_forms(h.page);
        lemma_push_keeps(st.1, warn_text_off(h.page));
        lemma_push_keeps(st.1, warn_text_empty(h.page));
    }
}

/// Read-back warns exactly once about each doc labelled with more than one
/// distinct action kind: after the page warnings (none of which starts like
/// a doc warning), one `doc <id>: <n> distinct action labels ...` warning per
/// such doc, in doc order, naming it and the number of kinds.
pub proof fn classify_warns_once_per_conflict(
    docs: Seq<EmbeddedDoc>,
    text_hits: Seq<TextHit>,
    strokes: Seq<StrokeReading>,
)
    ensures
        ({
            let w = classify_spec(docs, text_hits, strokes).2;
            let t = action_table(docs, text_hits, strokes);
            let pw = page_warnings(docs, text_hits, strokes);
            let cp = conflict_positions(t);
            &&& ids_increasing(t)
            &&& w.len() == pw.len() + cp.len()
            &&& forall|j: int| 0 <= j < pw.len() ==> w[j] == pw[j] && not_doc_warning(#[trigger] pw[j])
            &&& forall|j: int|
                0 <= j < cp.len() ==> {
                    let k = #[trigger] cp[j];
                    &&& 0 <= k < t.len()
                    &&& kind_count(t[k].1) != 1
                    &&& w[pw.len() + j] == warn_multi(t[k].0, kind_count(t[k].1))
                    &&& warn_multi(t[k].0, kind_count(t[k].1))[0] == 'd'
                }
            &&& forall|i: int, j: int| 0 <= i < j < cp.len() ==> #[trigger] cp[i] < #[trigger] cp[j]
            &&& forall|k: int|
                0 <= k < t.len() && kind_count(#[trigger] t[k].1) != 1 ==> exists|j: int|
                    0 <= j < cp.len() && cp[j] == k
        }),
{
    let t = action_table(docs, text_hits, strokes);
    let pw = page_warnings(docs, text_hits, strokes);
    let cp = conflict_positions(t);
    let w = classify_spec(docs, text_hits, strokes).2;
    lemma_fold_increasing(docs, text_hits, strokes);
    lemma_resolve_warnings_exact(t);
    lemma_page_warnings_not_doc(docs, text_hits, strokes);
    assert(w == pw + resolve(t).1);
    reveal_strlit("doc ");
    assert forall|j: int| 0 <= j < cp.len() implies {
        let k = #[trigger] cp[j];
        &&& 0 <= k < t.len()
        &&& kind_count(t[k].1) != 1
        &&& w[pw.len() + j] == warn_multi(t[k].0, kind_count(t[k].1))
        &&& warn_multi(t[k].0, kind_count(t[k].1))[0] == 'd'
    } by {
        let k = cp[j];
        assert(w[pw.len() + j] == resolve(t).1[j]);
    }
}

/// A Reader category of a book: `epub`, `book` or `books`, in any ASCII case,
/// surrounding whitespace ignored.
pub open spec fn book_like(c: Seq<char>) -> bool {
    let t = ascii_lower_seq(trim(c));
    t == "epub"@ || t == "book"@ || t == "books"@
}

/// A book's Reader category (`epub`, `book` or `books`, in any ASCII case,
/// surrounding whitespace ignored) maps to the v2 category `books`.
pub proof fn book_category_is_books(c: Seq<char>)
    requires
        book_like(c),
    ensures
        v2_category_spec(c) == "books"@,
{
    reveal_strlit("epub");
    reveal_strlit("book");
    reveal_strlit("books");
    reveal_strlit("tweet");
    reveal_strlit("tweets");
    reveal_strlit("podcast");
    reveal_strlit("podcasts");
    let t = ascii_lower_seq(trim(c));
    assert(t.len() == 4 || t.len() == 5);
    if t.len() == 4 {
        assert(t != "tweets"@ && t != "podcast"@ && t != "podcasts"@);
        assert(t[0] == 'e' || t[0] == 'b');
        assert(t != "tweet"@) by {
            if t == "tweet"@ {
                assert(t.len() == 5);
            }
        }
    } else {
        assert(t == "books"@);
        assert("books"@[0] != "tweet"@[0]);
        assert("books"@ != "tweet"@);
    }
}

proof fn lemma_page_doc_member(docs: Seq<EmbeddedDoc>, page: usize)
    ensures
        page_doc(docs, page) matches Some(d) ==> exists|j: int| 0 <= j < docs.len() && docs[j] == d,
    decreases docs.len(),
{
    if docs.len() > 0 && !crate::manifest::covers(docs[0].page_range, page) {
        lemma_page_doc_member(docs.drop_first(), page);
        if let Some(d) = page_doc(docs, page) {
            let j = choose|j: int| 0 <= j < docs.drop_first().len() && docs.drop_first()[j] == d;
            assert(docs[j + 1] == d);
        }
    } else if docs.len() > 0 {
        assert(docs[0] == docs[0]);
    }
}

/// A highlight made from one of the docs: its title, author and URL, and its
/// v2 category.
pub open spec fn from_doc(h: HighlightV, docs: Seq<EmbeddedDoc>) -> bool {
    exists|j: int|
        0 <= j < docs.len() && h.1 == docs[j].title@ && h.2 == docs[j].author@ && h.3
            == docs[j].url@ && h.4 == v2_category_spec(docs[j].category@) && (book_like(
            docs[j].category@,
        ) ==> h.4 == "books"@)
}

proof fn lemma_push_from_doc(hs: Seq<HighlightV>, docs: Seq<EmbeddedDoc>, t: Seq<char>, page: usize)
    requires
        forall|i: int| 0 <= i < hs.len() ==> from_doc(#[trigger] hs[i], docs),
        page_doc(docs, page) is Some,
    ensures
        forall|i: int|
            0 <= i < hs.push(highlight_of(t, page_doc(docs, page).unwrap())).len() ==> from_doc(
                #[trigger] hs.push(highlight_of(t, page_doc(docs, page).unwrap()))[i],
                docs,
            ),
{
    let d = page_doc(docs, page).unwrap();
    lemma_page_doc_member(docs, page);
    let j = choose|j: int| 0 <= j < docs.len() && docs[j] == d;
    if book_like(d.category@) {
        book_category_is_books(d.category@);
    }
    let h = highlight_of(t, d);
    assert(from_doc(h, docs));
    let hs2 = hs.push(h);
    assert forall|i: int| 0 <= i < hs2.len() implies from_doc(#[trigger] hs2[i], docs) by {
        if i < hs.len() {
            assert(hs2[i] == hs[i]);
        }
    }
}

proof fn lemma_highlights_from_docs(docs: Seq<EmbeddedDoc>, text_hits: Seq<TextHit>, strokes: Seq<StrokeReading>)
    ensures
        forall|i: int|
            0 <= i < fold_text(docs, text_hits).0.len() ==> from_doc(
                #[trigger] fold_text(docs, text_hits).0[i],
                docs,
            ),
        forall|i: int|
            0 <= i < classify_spec(docs, text_hits, strokes).1.len() ==> from_doc(
                #[trigger] classify_spec(docs, text_hits, strokes).1[i],
                docs,
            ),
    decreases text_hits.len() + strokes.len(),
{
    if strokes.len() > 0 {
        lemma_highlights_from_docs(docs, text_hits, strokes.drop_last());
        let st = fold_strokes(fold_text(docs, text_hits), docs, strokes.drop_last());
        let prev = classify_spec(docs, text_hits, strokes.drop_last()).1;
        assert(st.0 == prev);
        assert forall|i: int| 0 <= i < st.0.len() implies from_doc(#[trigger] st.0[i], docs) by {
            assert(st.0[i] == prev[i]);
        }
        let h = strokes.last();
        if page_doc(docs, h.page) is Some {
            lemma_push_from_doc(st.0, docs, decode_entities_spec(trim(h.text@)), h.page);
        }
    } else if text_hits.len() > 0 {
        lemma_highlights_from_docs(docs, text_hits.drop_last(), strokes);
        let st = fold_text(docs, text_hits.drop_last());
        let h = text_hits.last();
        if page_doc(docs, h.page) is Some {
            lemma_push_from_doc(st.0, docs, decode_entities_spec(trim(h.text@)), h.page);
        }
    }
}

/// Every highlight read back is filed under one of the manifest's docs, with
/// its title, author and URL; a highlight on a book (Reader category `epub`,
/// `book` or `books`, in any case) is filed in the v2 category `books`.
pub proof fn book_highlights_are_books(
    docs: Seq<EmbeddedDoc>,
    text_hits: Seq<TextHit>,
    strokes: Seq<StrokeReading>,
)
    ensures
        forall|i: int|
            0 <= i < classify_spec(docs, text_hits, strokes).1.len() ==> exists|j: int|
                0 <= j < docs.len() && #[trigger] classify_spec(docs, text_hits, strokes).1[i].1
                    == docs[j].title@ && classify_spec(docs, text_hits, strokes).1[i].2
                    == docs[j].author@ && classify_spec(docs, text_hits, strokes).1[i].3
                    == docs[j].url@ && (book_like(docs[j].category@) ==> classify_spec(
                    docs,
                    text_hits,
                    strokes,
                ).1[i].4 == "books"@),
{
    lemma_highlights_from_docs(docs, text_hits, strokes);
    let hs = classify_spec(docs, text_hits, strokes).1;
    assert forall|i: int| 0 <= i < hs.len() implies exists|j: int|
        0 <= j < docs.len() && #[trigger] hs[i].1 == docs[j].title@ && hs[i].2 == docs[j].author@
            && hs[i].3 == docs[j].url@ && (book_like(docs[j].category@) ==> hs[i].4 == "books"@) by {
        assert(from_doc(hs[i], docs));
    }
}

/// With no hits at all the plan is empty.
pub proof fn classify_no_hits_no_ops(docs: Seq<EmbeddedDoc>)
    ensures
        classify_spec(docs, Seq::empty(), Seq::empty()).0.len() == 0,
        classify_spec(docs, Seq::empty(), Seq::empty()).1.len() == 0,
        classify_spec(docs, Seq::empty(), Seq::empty()).2.len() == 0,
{
}

} // verus!
