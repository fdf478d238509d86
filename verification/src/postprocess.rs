//! Page navigation for the per-page nav bar: which article each page belongs
//! to and where its Prev / Next links go (Home is always the first page).
use vstd::prelude::*;
use vstd::utf8::encode_utf8;

use crate::text::{trim, trim_str};

verus! {

/// Nav links of one article page.
#[derive(Debug, Clone, Copy, PartialEq, Eq, Structural)]
pub struct NavPage {
    pub page: usize,
    /// First page of the previous article.
    pub prev: Option<usize>,
    /// First page of the next article.
    pub next: Option<usize>,
}

/// Article start pages: the first `num_articles` index-link targets in page
/// order.
pub open spec fn starts_spec(dests: Seq<usize>, num_articles: usize) -> Seq<usize> {
    if dests.len() <= num_articles {
        dests
    } else {
        dests.take(num_articles as int)
    }
}

pub fn article_starts(dests: &[usize], num_articles: usize) -> (r: Vec<usize>)
    ensures
        r@ == starts_spec(dests@, num_articles),
{
    let mut r: Vec<usize> = Vec::new();
    let mut i: usize = 0;
    while i < dests.len() && i < num_articles
        invariant
            i <= dests.len(),
            i <= num_articles,
            r@ == dests@.take(i as int),
        decreases dests.len() - i,
    {
        r.push(dests[i]);
        i = i + 1;
        assert(dests@.take(i as int) =~= dests@.take(i - 1).push(dests@[i - 1]));
    }
    proof {
        if dests@.len() <= num_articles {
            assert(dests@.take(dests.len() as int) =~= dests@);
        }
    }
    r
}

/// Index of the last start at or before page `p` (0 when there is none).
pub open spec fn article_of(starts: Seq<usize>, p: int) -> int
    decreases starts.len(),
{
    if starts.len() == 0 {
        0
    } else if starts.last() <= p {
        starts.len() - 1
    } else {
        article_of(starts.drop_last(), p)
    }
}

pub open spec fn nav_page(starts: Seq<usize>, p: int) -> NavPage {
    let a = article_of(starts, p);
    NavPage {
        page: p as usize,
        prev: if a > 0 {
            Some(starts[a - 1])
        } else {
            None
        },
        next: if a + 1 < starts.len() {
            Some(starts[a + 1])
        } else {
            None
        },
    }
}

proof fn lemma_article_of(starts: Seq<usize>, p: int)
    ensures
        0 <= article_of(starts, p) < starts.len() || (starts.len() == 0 && article_of(starts, p)
            == 0),
    decreases starts.len(),
{
    if starts.len() > 0 && !(starts.last() <= p) {
        lemma_article_of(starts.drop_last(), p);
    }
}

fn article_index(starts: &[usize], p: usize) -> (r: usize)
    ensures
        r == article_of(starts@, p as int),
{
    let mut k: usize = starts.len();
    assert(starts@.take(k as int) =~= starts@);
    while k > 0 && starts[k - 1] > p
        invariant
            k <= starts.len(),
            article_of(starts@, p as int) == article_of(starts@.take(k as int), p as int),
        decreases k,
    {
        assert(starts@.take(k as int).drop_last() =~= starts@.take(k - 1));
        k = k - 1;
    }
    if k == 0 {
        0
    } else {
        k - 1
    }
}

/// The nav of every page from the first article's start to the last page.
pub fn nav_plan(starts: &[usize], n_pages: usize) -> (r: Vec<NavPage>)
    ensures
        starts@.len() == 0 ==> r@.len() == 0,
        starts@.len() > 0 ==> r@.len() == (if starts@[0] < n_pages {
            n_pages - starts@[0]
        } else {
            0
        }),
        forall|i: int| 0 <= i < r@.len() ==> #[trigger] r@[i] == nav_page(starts@, starts@[0] + i),
{
    let mut r: Vec<NavPage> = Vec::new();
    if starts.len() == 0 {
        return r;
    }
    let first = starts[0];
    let mut p = first;
    while p < n_pages
        invariant
            starts@.len() > 0,
            first == starts@[0],
            first <= p,
            p == first || p <= n_pages,
            r@.len() == p - first,
            forall|i: int| 0 <= i < r@.len() ==> #[trigger] r@[i] == nav_page(starts@, first + i),
        decreases n_pages - p,
    {
        let a = article_index(starts, p);
        proof {
            lemma_article_of(starts@, p as int);
        }
        let prev = if a > 0 {
            Some(starts[a - 1])
        } else {
            None
        };
        let next = if a + 1 < starts.len() {
            Some(starts[a + 1])
        } else {
            None
        };
        r.push(NavPage { page: p, prev, next });
        p = p + 1;
    }
    r
}

// ---------------------------------------------------------------------------
// Nav colours
// ---------------------------------------------------------------------------

pub open spec fn hex_val(c: char) -> Option<nat> {
    if '0' <= c && c <= '9' {
        Some((c as nat - '0' as nat) as nat)
    } else if 'a' <= c && c <= 'f' {
        Some((c as nat - 'a' as nat + 10) as nat)
    } else if 'A' <= c && c <= 'F' {
        Some((c as nat - 'A' as nat + 10) as nat)
    } else {
        None
    }
}

/// Two characters read as a base-16 byte (`u8::from_str_radix(_, 16)`,
/// which also takes a leading `+`).
pub open spec fn pair_val(a: char, b: char) -> Option<nat> {
    if a == '+' {
        hex_val(b)
    } else {
        match (hex_val(a), hex_val(b)) {
            (Some(x), Some(y)) => Some(16 * x + y),
            _ => None,
        }
    }
}

pub open spec fn skip_hashes(s: Seq<char>) -> Seq<char>
    decreases s.len(),
{
    if s.len() > 0 && s[0] == '#' {
        skip_hashes(s.drop_first())
    } else {
        s
    }
}

/// `#RRGGBB` (surrounding whitespace and any leading `#`s ignored) as three
/// bytes; `None` unless exactly six characters forming three base-16 bytes.
pub open spec fn hex_rgb_spec(s: Seq<char>) -> Option<(u8, u8, u8)> {
    let h = skip_hashes(trim(s));
    if h.len() != 6 || encode_utf8(h).len() != 6 {
        None
    } else {
        match (pair_val(h[0], h[1]), pair_val(h[2], h[3]), pair_val(h[4], h[5])) {
            (Some(r), Some(g), Some(b)) => Some((r as u8, g as u8, b as u8)),
            _ => None,
        }
    }
}

fn hex_digit_val(c: char) -> (r: Option<u8>)
    ensures
        match r {
            Some(v) => hex_val(c) == Some(v as nat) && v < 16,
            None => hex_val(c) is None,
        },
{
    if '0' <= c && c <= '9' {
        Some(((c as u32) - ('0' as u32)) as u8)
    } else if 'a' <= c && c <= 'f' {
        Some(((c as u32) - ('a' as u32) + 10) as u8)
    } else if 'A' <= c && c <= 'F' {
        Some(((c as u32) - ('A' as u32) + 10) as u8)
    } else {
        None
    }
}

fn pair_byte(a: char, b: char) -> (r: Option<u8>)
    ensures
        match r {
            Some(v) => pair_val(a, b) == Some(v as nat),
            None => pair_val(a, b) is None,
        },
{
    if a == '+' {
        return hex_digit_val(b);
    }
    match (hex_digit_val(a), hex_digit_val(b)) {
        (Some(x), Some(y)) => Some(16 * x + y),
        _ => None,
    }
}

/// Parse a `#RRGGBB` theme colour. Six UTF-8 bytes that do not split into
/// three whole-character pairs are not accepted input.
pub fn hex_rgb(s: &str) -> (r: Option<(u8, u8, u8)>)
    requires
        ({
            let b = encode_utf8(skip_hashes(trim(s@)));
            b.len() == 6 ==> vstd::utf8::is_char_boundary(b, 2) && vstd::utf8::is_char_boundary(b, 4)
        }),
    ensures
        r == hex_rgb_spec(s@),
{
    let t = trim_str(s);
    let mut a: usize = 0;
    assert(t@.skip(0) =~= t@);
    while a < t.len() && t[a] == '#'
        invariant
            a <= t.len(),
            skip_hashes(t@) == skip_hashes(t@.skip(a as int)),
        decreases t.len() - a,
    {
        assert(t@.skip(a as int).drop_first() =~= t@.skip(a + 1));
        a = a + 1;
    }
    let mut h: Vec<char> = Vec::new();
    let mut i = a;
    while i < t.len()
        invariant
            a <= i <= t.len(),
            h@ == t@.subrange(a as int, i as int),
        decreases t.len() - i,
    {
        h.push(t[i]);
        i = i + 1;
        assert(t@.subrange(a as int, i as int) =~= t@.subrange(a as int, i - 1).push(t@[i - 1]));
    }
    assert(h@ =~= skip_hashes(trim(s@)));
    if h.len() != 6 {
        return None;
    }
    match (pair_byte(h[0], h[1]), pair_byte(h[2], h[3]), pair_byte(h[4], h[5])) {
        (Some(r), Some(g), Some(b)) => {
            proof {
                assert forall|k: int| 0 <= k < 6 implies '\0' <= #[trigger] h@[k] <= '\u{7f}' by {
                    let a = h@[k - k % 2];
                    let c = h@[k - k % 2 + 1];
                    assert(pair_val(a, c) is Some);
                }
                vstd::utf8::is_ascii_chars_encode_utf8(h@);
            }
            Some((r, g, b))
        },
        _ => None,
    }
}

} // verus!
