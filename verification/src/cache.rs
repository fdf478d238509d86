//! Per-document content cache: keys, settings and expiry decisions.
//!
//! A cache entry holds sanitized HTML and normalized image blobs, keyed by a
//! content hash of everything that affects them. Entries not used within the
//! expiry, leftover temp dirs and partial entries are swept.
use vstd::prelude::*;

use crate::config::CacheConfig;
use vstd::utf8::encode_utf8;
use crate::text::{hex_fixed, push_hex_fixed, starts_with, str_starts_with, string_of};
use crate::wizard::{join, join_path};

verus! {

pub const FNV_OFFSET: u64 = 0xcbf2_9ce4_8422_2325;

pub const FNV_PRIME: u64 = 0x0000_0100_0000_01b3;

/// Bump to invalidate every cache entry when the on-disk format or the
/// processing pipeline changes in a way that affects rendered output.
pub const CACHE_FORMAT_VERSION: u32 = 1;

// ---------------------------------------------------------------------------
// Key
// ---------------------------------------------------------------------------

/// One FNV-1a step: xor the byte in, multiply by the prime modulo 2^64.
pub open spec fn fnv_step(h: u64, b: u8) -> u64 {
    (((h ^ (b as u64)) as nat * FNV_PRIME as nat) % 0x1_0000_0000_0000_0000) as u64
}

#[verifier::opaque]
pub open spec fn fnv(h: u64, bytes: Seq<u8>) -> u64
    decreases bytes.len(),
{
    if bytes.len() == 0 {
        h
    } else {
        fnv_step(fnv(h, bytes.drop_last()), bytes.last())
    }
}

/// The low `count` bytes of `n`, least significant first.
pub open spec fn le_bytes(n: nat, count: nat) -> Seq<u8>
    decreases count,
{
    if count == 0 {
        Seq::empty()
    } else {
        seq![(n % 256) as u8] + le_bytes(n / 256, (count - 1) as nat)
    }
}

fn mix(h: u64, bytes: &[u8]) -> (r: u64)
    ensures
        r == fnv(h, bytes@),
{
    let mut x = h;
    let mut i: usize = 0;
    proof {
        reveal(fnv);
    }
    while i < bytes.len()
        invariant
            i <= bytes.len(),
            x == fnv(h, bytes@.take(i as int)),
        decreases bytes.len() - i,
    {
        proof {
            assert(bytes@.take(i + 1).drop_last() =~= bytes@.take(i as int));
            reveal(fnv);
        }
        x = (x ^ (bytes[i] as u64)).wrapping_mul(FNV_PRIME);
        i = i + 1;
    }
    assert(bytes@.take(bytes.len() as int) =~= bytes@);
    x
}

fn le_bytes_of(n: u64, count: usize) -> (r: Vec<u8>)
    requires
        count <= 8,
    ensures
        r@ == le_bytes(n as nat, count as nat),
{
    let mut v: Vec<u8> = Vec::new();
    let mut x = n;
    let mut k: usize = 0;
    while k < count
        invariant
            k <= count,
            v@ + le_bytes(x as nat, (count - k) as nat) == le_bytes(n as nat, count as nat),
        decreases count - k,
    {
        let ghost before = v@;
        let b = (x % 256) as u8;
        proof {
            assert(le_bytes(x as nat, (count - k) as nat) == seq![(x % 256) as u8] + le_bytes(
                (x / 256) as nat,
                (count - k - 1) as nat,
            ));
        }
        v.push(b);
        x = x / 256;
        k = k + 1;
        assert(before + (seq![b] + le_bytes(x as nat, (count - k) as nat)) =~= v@ + le_bytes(
            x as nat,
            (count - k) as nat,
        ));
    }
    assert(v@ + le_bytes(x as nat, 0) =~= v@);
    v
}

/// The hashed bytes: format version (4 bytes, little endian), the doc id's
/// UTF-8 bytes, a 0 separator, the byte cap (8 bytes), the images flag, the
/// HTML's UTF-8 bytes.
pub open spec fn key_hash(doc_id: Seq<char>, html: Seq<char>, max_bytes: usize, images: bool) -> u64 {
    fnv(
        fnv(
            fnv(
                fnv(
                    fnv(fnv(FNV_OFFSET, le_bytes(CACHE_FORMAT_VERSION as nat, 4)), encode_utf8(doc_id)),
                    seq![0u8],
                ),
                le_bytes(max_bytes as nat, 8),
            ),
            seq![if images {
                1u8
            } else {
                0u8
            }],
        ),
        encode_utf8(html),
    )
}

/// Content-addressed cache key: FNV-1a (64-bit) of the document id, its HTML,
/// the byte cap, the images flag and the format version, as 16 lowercase hex
/// digits.
pub open spec fn key_spec(doc_id: Seq<char>, html: Seq<char>, max_bytes: usize, images: bool) -> Seq<char> {
    hex_fixed(key_hash(doc_id, html, max_bytes, images) as nat, 16)
}

pub fn key(doc_id: &str, html_content: &str, max_bytes: usize, images_enabled: bool) -> (r: String)
    ensures
        r@ == key_spec(doc_id@, html_content@, max_bytes, images_enabled),
{
    let b0 = le_bytes_of(CACHE_FORMAT_VERSION as u64, 4);
    let h0 = mix(FNV_OFFSET, b0.as_slice());
    let h1 = mix(h0, doc_id.as_bytes());
    let sep: Vec<u8> = vec![0u8];
    assert(sep@ =~= seq![0u8]);
    let h2 = mix(h1, sep.as_slice());
    let b3 = le_bytes_of(max_bytes as u64, 8);
    let h3 = mix(h2, b3.as_slice());
    let fl: u8 = if images_enabled {
        1u8
    } else {
        0u8
    };
    let flag: Vec<u8> = vec![fl];
    assert(flag@ =~= seq![fl]);
    let h4 = mix(h3, flag.as_slice());
    let h = mix(h4, html_content.as_bytes());
    assert(h == key_hash(doc_id@, html_content@, max_bytes, images_enabled));
    let mut v: Vec<char> = Vec::new();
    push_hex_fixed(&mut v, h, 16);
    assert(Seq::<char>::empty() + hex_fixed(h as nat, 16) =~= hex_fixed(h as nat, 16));
    string_of(&v)
}

// ---------------------------------------------------------------------------
// Settings
// ---------------------------------------------------------------------------

/// Whether an entry written with format `version` can be used: only entries
/// of the current format are; older or newer ones are misses.
pub fn is_current_format(version: u32) -> (r: bool)
    ensures
        r == (version == CACHE_FORMAT_VERSION),
{
    version == CACHE_FORMAT_VERSION
}

/// A cached processed document: render-ready HTML + (asset key, bytes) blobs.
pub struct Cached {
    pub html: String,
    pub assets: Vec<(String, Vec<u8>)>,
}

pub struct Cache {
    dir: String,
    enabled: bool,
    expiry_secs: u64,
}

/// `days` in seconds, saturating at `u64::MAX`.
pub open spec fn expiry_secs_spec(days: u64) -> u64 {
    if days * 86_400 > u64::MAX {
        u64::MAX
    } else {
        (days * 86_400) as u64
    }
}

/// Where the cache lives when the config names no directory:
/// `$XDG_CACHE_HOME/rmreader` when that is set and not empty, else
/// `$HOME/.cache/rmreader`, else `rmreader-cache` in the temp directory.
pub open spec fn default_cache_dir_spec(
    xdg: Option<Seq<char>>,
    home: Option<Seq<char>>,
    temp: Seq<char>,
) -> Seq<char> {
    match xdg {
        Some(x) if x.len() > 0 => join_path(x, "rmreader"@),
        _ => match home {
            Some(h) => join_path(join_path(h, ".cache"@), "rmreader"@),
            None => join_path(temp, "rmreader-cache"@),
        },
    }
}

pub open spec fn opt_str(o: Option<&str>) -> Option<Seq<char>> {
    match o {
        Some(s) => Some(s@),
        None => None,
    }
}

pub fn default_cache_dir(xdg: Option<&str>, home: Option<&str>, temp: &str) -> (r: String)
    ensures
        r@ == default_cache_dir_spec(opt_str(xdg), opt_str(home), temp@),
{
    match xdg {
        Some(x) => {
            if !x.is_empty() {
                return join(x, "rmreader");
            }
        },
        None => {},
    }
    match home {
        Some(h) => {
            let c = join(h, ".cache");
            join(c.as_str(), "rmreader")
        },
        None => join(temp, "rmreader-cache"),
    }
}

impl Cache {
    pub closed spec fn dir_view(&self) -> Seq<char> {
        self.dir@
    }

    pub closed spec fn is_enabled(&self) -> bool {
        self.enabled
    }

    pub closed spec fn expiry_view(&self) -> u64 {
        self.expiry_secs
    }

    pub fn new(dir: String, enabled: bool, expiry_days: u64) -> (r: Self)
        ensures
            r.dir_view() == dir@,
            r.is_enabled() == enabled,
            r.expiry_view() == expiry_secs_spec(expiry_days),
    {
        let expiry_secs = if expiry_days > u64::MAX / 86_400 {
            u64::MAX
        } else {
            expiry_days * 86_400
        };
        Cache { dir, enabled, expiry_secs }
    }

    /// The cache a config describes; `default_dir` is used when it names none.
    pub fn from_config(c: &CacheConfig, default_dir: &str) -> (r: Self)
        ensures
            r.dir_view() == (match c.dir {
                Some(d) => d@,
                None => default_dir@,
            }),
            r.is_enabled() == c.enabled,
            r.expiry_view() == expiry_secs_spec(c.expiry_days),
    {
        let dir = match &c.dir {
            Some(d) => d.clone(),
            None => default_dir.to_owned(),
        };
        Cache::new(dir, c.enabled, c.expiry_days)
    }

    pub fn dir(&self) -> (r: &str)
        ensures
            r@ == self.dir_view(),
    {
        self.dir.as_str()
    }

    pub fn enabled(&self) -> (r: bool)
        ensures
            r == self.is_enabled(),
    {
        self.enabled
    }

    pub fn expiry_secs(&self) -> (r: u64)
        ensures
            r == self.expiry_view(),
    {
        self.expiry_secs
    }

    /// Whether the sweep removes a directory entry: leftover temp dirs
    /// (`.tmp-*`) always; other dirs unless their `meta.json` was touched
    /// within the expiry (`age_nanos` is `None` when that is unknown). Plain
    /// files are left alone, and nothing is removed when the cache is off.
    pub fn sweep_removes(&self, name: &str, is_dir: bool, age_nanos: Option<u128>) -> (r: bool)
        ensures
            r == (self.is_enabled() && is_dir && (starts_with(name@, ".tmp-"@) || match age_nanos {
                Some(a) => a > self.expiry_view() as nat * 1_000_000_000,
                None => true,
            })),
    {
        if !self.enabled || !is_dir {
            return false;
        }
        if str_starts_with(name, ".tmp-") {
            return true;
        }
        match age_nanos {
            Some(a) => a > (self.expiry_secs as u128) * 1_000_000_000,
            None => true,
        }
    }
}

} // verus!
