//! Build-pipeline steps between fetching and rendering: which documents are
//! rendered, the image URLs fetched for a collection, and the page ranges
//! written into the embedded manifest.
use vstd::prelude::*;

use crate::content::strs_view;
use crate::manifest::{EmbeddedDoc, EmbeddedManifest, PageRange};
use crate::readwise::Document;
use crate::text::{contains_seq, is_blank, starts_with, str_contains, str_eq, str_is_blank, str_starts_with};

verus! {

/// The file extension an image download is kept under, from its
/// `Content-Type`: `None` unless it is an `image/` type; SVG first (its
/// subtype is `svg+xml`), then JPEG, PNG, GIF and WebP; `bin` otherwise.
pub open spec fn image_ext_spec(content_type: Seq<char>) -> Option<Seq<char>> {
    if !starts_with(content_type, "image/"@) {
        None
    } else if contains_seq(content_type, "svg"@) {
        Some("svg"@)
    } else if contains_seq(content_type, "jpeg"@) || contains_seq(content_type, "jpg"@) {
        Some("jpg"@)
    } else if contains_seq(content_type, "png"@) {
        Some("png"@)
    } else if contains_seq(content_type, "gif"@) {
        Some("gif"@)
    } else if contains_seq(content_type, "webp"@) {
        Some("webp"@)
    } else {
        Some("bin"@)
    }
}

pub fn image_ext(content_type: &str) -> (r: Option<String>)
    ensures
        r matches Some(e) ==> image_ext_spec(content_type@) == Some(e@),
        r is None ==> image_ext_spec(content_type@) is None,
{
    if !str_starts_with(content_type, "image/") {
        return None;
    }
    let e = if str_contains(content_type, "svg") {
        "svg"
    } else if str_contains(content_type, "jpeg") || str_contains(content_type, "jpg") {
        "jpg"
    } else if str_contains(content_type, "png") {
        "png"
    } else if str_contains(content_type, "gif") {
        "gif"
    } else if str_contains(content_type, "webp") {
        "webp"
    } else {
        "bin"
    };
    Some(crate::text::string_of(&crate::text::chars_of(e)))
}

/// Readwise has reader text for the document.
pub open spec fn has_reader_text(d: Document) -> bool {
    match d.html_content {
        Some(h) => !is_blank(h@),
        None => false,
    }
}

pub open spec fn reader_text() -> spec_fn(Document) -> bool {
    |d: Document| has_reader_text(d)
}

/// Drop docs Readwise has no reader text for (unparsed saves, archive
/// listing pages): they would render as blank articles.
pub fn drop_empty(docs: Vec<Document>) -> (r: Vec<Document>)
    ensures
        r@ == docs@.filter(reader_text()),
{
    let ghost all = docs@;
    let n0 = docs.len();
    proof {
        reveal(Seq::filter);
        assert(all.take(0).filter(reader_text()) =~= Seq::<Document>::empty());
    }
    let mut rest = docs;
    let mut out: Vec<Document> = Vec::new();
    let mut i: usize = 0;
    while rest.len() > 0
        invariant
            i <= all.len(),
            all.len() <= usize::MAX,
            rest@ == all.skip(i as int),
            out@ == all.take(i as int).filter(reader_text()),
        decreases rest.len(),
    {
        let ghost before = out@;
        let d = rest.remove(0);
        proof {
            assert(all.take(i + 1).drop_last() =~= all.take(i as int));
            assert(all.take(i + 1).last() == all[i as int]);
            assert(rest@ =~= all.skip(i + 1));
            assert(d == all[i as int]);
        }
        let keep = match &d.html_content {
            Some(h) => !str_is_blank(h.as_str()),
            None => false,
        };
        assert(keep == has_reader_text(all[i as int]));
        if keep {
            out.push(d);
        }
        proof {
            let t = all.take(i + 1);
            reveal(Seq::filter);
            assert(t.len() > 0);
            assert(t.drop_last() == all.take(i as int));
            assert(reader_text()(t.last()) == keep);
            assert(t.filter(reader_text()) == (if reader_text()(t.last()) {
                t.drop_last().filter(reader_text()).push(t.last())
            } else {
                t.drop_last().filter(reader_text())
            }));
        }
        i = i + 1;
    }
    assert(all.take(i as int) =~= all);
    out
}

/// The URLs of all lists, in order, each kept at its first occurrence.
pub open spec fn union_spec(lists: Seq<Seq<Seq<char>>>) -> Seq<Seq<char>>
    decreases lists.len(),
{
    if lists.len() == 0 {
        Seq::empty()
    } else {
        unique_append(union_spec(lists.drop_last()), lists.last())
    }
}

/// `acc` followed by the members of `more` it does not hold yet.
pub open spec fn unique_append(acc: Seq<Seq<char>>, more: Seq<Seq<char>>) -> Seq<Seq<char>>
    decreases more.len(),
{
    if more.len() == 0 {
        acc
    } else {
        let a = unique_append(acc, more.drop_last());
        if a.contains(more.last()) {
            a
        } else {
            a.push(more.last())
        }
    }
}

pub open spec fn lists_view(lists: Seq<Vec<String>>) -> Seq<Seq<Seq<char>>> {
    lists.map_values(|v: Vec<String>| strs_view(v@))
}

fn push_unique(acc: &mut Vec<String>, more: &Vec<String>)
    ensures
        strs_view(final(acc)@) == unique_append(strs_view(old(acc)@), strs_view(more@)),
{
    let ghost start = strs_view(acc@);
    let mut i: usize = 0;
    while i < more.len()
        invariant
            i <= more.len(),
            strs_view(acc@) == unique_append(start, strs_view(more@).take(i as int)),
        decreases more.len() - i,
    {
        proof {
            assert(strs_view(more@).take(i + 1).drop_last() =~= strs_view(more@).take(i as int));
        }
        let u = &more[i];
        let mut found = false;
        let mut k: usize = 0;
        while k < acc.len()
            invariant
                k <= acc.len(),
                found == exists|j: int| 0 <= j < k && acc@[j]@ == u@,
            decreases acc.len() - k,
        {
            if str_eq(acc[k].as_str(), u.as_str()) {
                found = true;
            }
            k = k + 1;
        }
        proof {
            if found {
                let j = choose|j: int| 0 <= j < acc@.len() && acc@[j]@ == u@;
                assert(strs_view(acc@)[j] == u@);
            } else {
                assert forall|j: int| 0 <= j < strs_view(acc@).len() implies strs_view(acc@)[j]
                    != u@ by {
                    assert(strs_view(acc@)[j] == acc@[j]@);
                }
            }
        }
        if !found {
            acc.push(u.clone());
            assert(strs_view(acc@) =~= unique_append(start, strs_view(more@).take(i as int)).push(
                u@,
            ));
        }
        i = i + 1;
    }
    assert(strs_view(more@).take(more.len() as int) =~= strs_view(more@));
}

/// One fetch list for a collection: the URLs of every document, duplicates
/// dropped, first-seen order.
pub fn union_urls(lists: &[Vec<String>]) -> (r: Vec<String>)
    ensures
        strs_view(r@) == union_spec(lists_view(lists@)),
{
    let mut acc: Vec<String> = Vec::new();
    let mut i: usize = 0;
    assert(strs_view(acc@) =~= Seq::<Seq<char>>::empty());
    while i < lists.len()
        invariant
            i <= lists.len(),
            strs_view(acc@) == union_spec(lists_view(lists@.take(i as int))),
        decreases lists.len() - i,
    {
        proof {
            assert(lists_view(lists@.take(i + 1)).drop_last() =~= lists_view(lists@.take(i as int)));
        }
        push_unique(&mut acc, &lists[i]);
        i = i + 1;
    }
    assert(lists@.take(lists.len() as int) =~= lists@);
    acc
}

/// The range recorded for `anchor`: the first entry with that anchor.
pub open spec fn range_lookup(ranges: Seq<(String, PageRange)>, anchor: Seq<char>) -> Option<
    PageRange,
>
    decreases ranges.len(),
{
    if ranges.len() == 0 {
        None
    } else if ranges[0].0@ == anchor {
        Some(ranges[0].1)
    } else {
        range_lookup(ranges.drop_first(), anchor)
    }
}

/// A doc with the rendered page range of its `article-{id}` anchor, when
/// there is one.
pub open spec fn with_range(d: EmbeddedDoc, ranges: Seq<(String, PageRange)>) -> EmbeddedDoc {
    match range_lookup(ranges, "article-"@ + d.id@) {
        Some(r) => EmbeddedDoc { page_range: r, ..d },
        None => d,
    }
}

fn lookup_range(ranges: &[(String, PageRange)], anchor: &str) -> (r: Option<PageRange>)
    ensures
        r == range_lookup(ranges@, anchor@),
{
    let mut i: usize = 0;
    assert(ranges@.skip(0) =~= ranges@);
    while i < ranges.len()
        invariant
            i <= ranges.len(),
            range_lookup(ranges@, anchor@) == range_lookup(ranges@.skip(i as int), anchor@),
        decreases ranges.len() - i,
    {
        assert(ranges@.skip(i as int)[0] == ranges@[i as int]);
        assert(ranges@.skip(i as int).drop_first() =~= ranges@.skip(i + 1));
        if str_eq(ranges[i].0.as_str(), anchor) {
            return Some(ranges[i].1);
        }
        i = i + 1;
    }
    None
}

/// Write the rendered page ranges (keyed by article anchor) into the
/// embedded manifest's docs.
pub fn fill_page_ranges(m: &mut EmbeddedManifest, ranges: &[(String, PageRange)])
    ensures
        final(m).schema_version == old(m).schema_version,
        final(m).collection == old(m).collection,
        final(m).docs@.len() == old(m).docs@.len(),
        forall|i: int|
            0 <= i < final(m).docs@.len() ==> #[trigger] final(m).docs@[i] == with_range(
                old(m).docs@[i],
                ranges@,
            ),
{
    let ghost docs0 = m.docs@;
    let n0 = m.docs.len();
    let mut docs: Vec<EmbeddedDoc> = Vec::new();
    std::mem::swap(&mut docs, &mut m.docs);
    let mut out: Vec<EmbeddedDoc> = Vec::new();
    let mut i: usize = 0;
    while docs.len() > 0
        invariant
            i <= docs0.len(),
            docs0.len() <= usize::MAX,
            docs@ == docs0.skip(i as int),
            out@.len() == i,
            forall|k: int| 0 <= k < i ==> #[trigger] out@[k] == with_range(docs0[k], ranges@),
        decreases docs.len(),
    {
        let mut d = docs.remove(0);
        assert(d == docs0[i as int]);
        assert(docs@ =~= docs0.skip(i + 1));
        let mut anchor: Vec<char> = Vec::new();
        crate::text::extend_str(&mut anchor, "article-");
        crate::text::extend_str(&mut anchor, d.id.as_str());
        let a = crate::text::string_of(&anchor);
        match lookup_range(ranges, a.as_str()) {
            Some(r) => {
                d.page_range = r;
            },
            None => {},
        }
        out.push(d);
        i = i + 1;
    }
    assert(docs0.skip(i as int).len() == 0);
    m.docs = out;
}

} // verus!
