//! Read-back geometry recovered from a compiled document: the page range of
//! each article, from the `art-{anchor}` regions the Typst source places on
//! each article's pages.
use vstd::prelude::*;

use crate::manifest::PageRange;
use crate::text::{chars_eq, chars_of, extend_str};

verus! {

/// A `<region>` record of the compiled document: its name and 0-based page.
#[derive(Debug, Clone)]
pub struct Region {
    pub name: String,
    pub page: usize,
}

/// The page of the first `art-{anchor}` region.
pub open spec fn first_page_of(regions: Seq<Region>, anchor: Seq<char>) -> Option<usize>
    decreases regions.len(),
{
    if regions.len() == 0 {
        None
    } else if regions[0].name@ == "art-"@ + anchor {
        Some(regions[0].page)
    } else {
        first_page_of(regions.drop_first(), anchor)
    }
}

/// The first page of the first article at or after `j` that has one.
pub open spec fn next_first(order: Seq<String>, regions: Seq<Region>, j: int) -> Option<usize>
    decreases order.len() - j,
{
    if j < 0 || j >= order.len() {
        None
    } else {
        match first_page_of(regions, order[j]@) {
            Some(p) => Some(p),
            None => next_first(order, regions, j + 1),
        }
    }
}

pub open spec fn sat_pred(n: usize) -> usize {
    if n == 0 {
        0
    } else {
        (n - 1) as usize
    }
}

/// Article `i`'s range: from its first page to the page before the next
/// article's first page, or to the last page.
pub open spec fn range_at(order: Seq<String>, regions: Seq<Region>, total: usize, i: int) -> Option<
    PageRange,
> {
    match first_page_of(regions, order[i]@) {
        None => None,
        Some(first) => Some(
            PageRange {
                first,
                last: match next_first(order, regions, i + 1) {
                    Some(np) => sat_pred(np),
                    None => sat_pred(total),
                },
            },
        ),
    }
}

/// `(anchor, range)` for the first `n` articles that have a region, in order.
pub open spec fn ranges_spec(order: Seq<String>, regions: Seq<Region>, total: usize, n: int) -> Seq<
    (Seq<char>, PageRange),
>
    decreases n,
{
    if n <= 0 {
        Seq::empty()
    } else {
        let prev = ranges_spec(order, regions, total, n - 1);
        match range_at(order, regions, total, n - 1) {
            Some(r) => prev.push((order[n - 1]@, r)),
            None => prev,
        }
    }
}

pub open spec fn ranges_view(v: Seq<(String, PageRange)>) -> Seq<(Seq<char>, PageRange)> {
    v.map_values(|p: (String, PageRange)| (p.0@, p.1))
}

fn first_page(regions: &[Region], anchor: &str) -> (r: Option<usize>)
    ensures
        r == first_page_of(regions@, anchor@),
{
    let mut want: Vec<char> = Vec::new();
    extend_str(&mut want, "art-");
    extend_str(&mut want, anchor);
    let mut i: usize = 0;
    assert(regions@.skip(0) =~= regions@);
    while i < regions.len()
        invariant
            i <= regions.len(),
            want@ == "art-"@ + anchor@,
            first_page_of(regions@, anchor@) == first_page_of(regions@.skip(i as int), anchor@),
        decreases regions.len() - i,
    {
        assert(regions@.skip(i as int)[0] == regions@[i as int]);
        assert(regions@.skip(i as int).drop_first() =~= regions@.skip(i + 1));
        if chars_eq(&chars_of(regions[i].name.as_str()), &want) {
            return Some(regions[i].page);
        }
        i = i + 1;
    }
    None
}

/// Page range of each article (in document order), from the `art-*`
/// regions: the first region of an article marks its opening page; an
/// article without one is left out.
pub fn page_ranges(order: &[String], regions: &[Region], total_pages: usize) -> (r: Vec<
    (String, PageRange),
>)
    ensures
        ranges_view(r@) == ranges_spec(order@, regions@, total_pages, order@.len() as int),
{
    let mut firsts: Vec<Option<usize>> = Vec::new();
    let mut i: usize = 0;
    while i < order.len()
        invariant
            i <= order.len(),
            firsts@.len() == i,
            forall|k: int| 0 <= k < i ==> #[trigger] firsts@[k] == first_page_of(regions@, order@[k]@),
        decreases order.len() - i,
    {
        firsts.push(first_page(regions, order[i].as_str()));
        i = i + 1;
    }
    let mut out: Vec<(String, PageRange)> = Vec::new();
    let mut i: usize = 0;
    while i < order.len()
        invariant
            i <= order.len(),
            firsts@.len() == order@.len(),
            forall|k: int| 0 <= k < order@.len() ==> #[trigger] firsts@[k] == first_page_of(regions@, order@[k]@),
            ranges_view(out@) == ranges_spec(order@, regions@, total_pages, i as int),
        decreases order.len() - i,
    {
        match firsts[i] {
            None => {},
            Some(first) => {
                let mut j = i + 1;
                let mut next: Option<usize> = None;
                while j < order.len()
                    invariant_except_break
                        next is None,
                        next_first(order@, regions@, i + 1) == next_first(order@, regions@, j as int),
                    invariant
                        i + 1 <= j <= order.len(),
                        firsts@.len() == order@.len(),
                        forall|k: int| 0 <= k < order@.len() ==> #[trigger] firsts@[k] == first_page_of(regions@, order@[k]@),
                    ensures
                        next == next_first(order@, regions@, i + 1),
                    decreases order.len() - j,
                {
                    if firsts[j].is_some() {
                        next = firsts[j];
                        break;
                    }
                    j = j + 1;
                }
                let last = match next {
                    Some(np) => if np == 0 { 0 } else { np - 1 },
                    None => if total_pages == 0 { 0 } else { total_pages - 1 },
                };
                out.push((order[i].clone(), PageRange { first, last }));
                assert(ranges_view(out@) =~= ranges_spec(order@, regions@, total_pages, i as int).push((order@[i as int]@, PageRange { first, last })));
            },
        }
        i = i + 1;
    }
    out
}

proof fn lemma_next_first_skips(order: Seq<String>, regions: Seq<Region>, j: int, k: int)
    requires
        0 <= j <= k < order.len(),
        forall|m: int| j <= m < k ==> first_page_of(regions, #[trigger] order[m]@) is None,
    ensures
        next_first(order, regions, j) == next_first(order, regions, k),
    decreases k - j,
{
    if j < k {
        lemma_next_first_skips(order, regions, j + 1, k);
    }
}

/// Article ranges tile the document: an article's range ends on the page just
/// before the next article (with a region) opens, and the last article's
/// range ends on the final page.
pub proof fn page_ranges_tile(order: Seq<String>, regions: Seq<Region>, total: usize, i: int)
    requires
        0 <= i < order.len(),
        first_page_of(regions, order[i]@) is Some,
    ensures
        forall|k: int|
            i < k < order.len() && first_page_of(regions, #[trigger] order[k]@) is Some && (forall|m: int|
                i < m < k ==> first_page_of(regions, #[trigger] order[m]@) is None) ==> range_at(
                order,
                regions,
                total,
                i,
            ).unwrap().last == sat_pred(first_page_of(regions, order[k]@).unwrap()),
        (forall|m: int| i < m < order.len() ==> first_page_of(regions, #[trigger] order[m]@) is None)
            ==> range_at(order, regions, total, i).unwrap().last == sat_pred(total),
        range_at(order, regions, total, i).unwrap().first == first_page_of(regions, order[i]@).unwrap(),
{
    assert forall|k: int|
        i < k < order.len() && first_page_of(regions, #[trigger] order[k]@) is Some && (forall|m: int|
            i < m < k ==> first_page_of(regions, #[trigger] order[m]@) is None) implies range_at(
        order,
        regions,
        total,
        i,
    ).unwrap().last == sat_pred(first_page_of(regions, order[k]@).unwrap()) by {
        lemma_next_first_skips(order, regions, i + 1, k);
    }
    if forall|m: int| i < m < order.len() ==> first_page_of(regions, #[trigger] order[m]@) is None {
        lemma_next_first_none(order, regions, i + 1);
    }
}

proof fn lemma_next_first_none(order: Seq<String>, regions: Seq<Region>, j: int)
    requires
        0 <= j,
        forall|m: int| j <= m < order.len() ==> first_page_of(regions, #[trigger] order[m]@) is None,
    ensures
        next_first(order, regions, j) is None,
    decreases order.len() - j,
{
    if j < order.len() {
        lemma_next_first_none(order, regions, j + 1);
    }
}

/// With first pages increasing along the order, the next first page at or
/// after article `j` exists and is no later than article `k`'s.
proof fn lemma_next_first_bounded(order: Seq<String>, regions: Seq<Region>, j: int, k: int)
    requires
        0 <= j <= k < order.len(),
        first_page_of(regions, order[k]@) is Some,
        forall|a: int, b: int|
            0 <= a < b < order.len() && first_page_of(regions, #[trigger] order[a]@) is Some
                && first_page_of(regions, #[trigger] order[b]@) is Some ==> first_page_of(
                regions,
                order[a]@,
            ).unwrap() < first_page_of(regions, order[b]@).unwrap(),
    ensures
        next_first(order, regions, j) is Some,
        next_first(order, regions, j).unwrap() <= first_page_of(regions, order[k]@).unwrap(),
    decreases k - j,
{
    if first_page_of(regions, order[j]@) is None {
        lemma_next_first_bounded(order, regions, j + 1, k);
    }
}

/// When each article with a region opens on a later page than the one
/// before it, article ranges do not overlap: an article's range ends before
/// any later article's range begins.
pub proof fn page_ranges_disjoint(order: Seq<String>, regions: Seq<Region>, total: usize, i: int, k: int)
    requires
        0 <= i < k < order.len(),
        first_page_of(regions, order[i]@) is Some,
        first_page_of(regions, order[k]@) is Some,
        forall|a: int, b: int|
            0 <= a < b < order.len() && first_page_of(regions, #[trigger] order[a]@) is Some
                && first_page_of(regions, #[trigger] order[b]@) is Some ==> first_page_of(
                regions,
                order[a]@,
            ).unwrap() < first_page_of(regions, order[b]@).unwrap(),
    ensures
        range_at(order, regions, total, i).unwrap().last < range_at(order, regions, total, k).unwrap().first,
{
    lemma_next_first_bounded(order, regions, i + 1, k);
    lemma_next_first_member(order, regions, i + 1);
    let np = next_first(order, regions, i + 1).unwrap();
    let m = choose|m: int|
        i + 1 <= m < order.len() && first_page_of(regions, order[m]@) == Some(np);
    assert(first_page_of(regions, order[i]@).unwrap() < np);
}

proof fn lemma_next_first_member(order: Seq<String>, regions: Seq<Region>, j: int)
    requires
        0 <= j,
    ensures
        next_first(order, regions, j) matches Some(p) ==> exists|m: int|
            j <= m < order.len() && first_page_of(regions, order[m]@) == Some(p),
    decreases order.len() - j,
{
    if j < order.len() && first_page_of(regions, order[j]@) is None {
        lemma_next_first_member(order, regions, j + 1);
    }
}

} // verus!
