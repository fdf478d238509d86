use rmreader::cache::{default_cache_dir, key, Cache};
use rmreader::config::CacheConfig;

#[test]
fn key_is_sensitive_to_each_input() {
    let base = key("d1", "<p>hi</p>", 80_000, true);
    assert_ne!(base, key("d2", "<p>hi</p>", 80_000, true), "doc_id");
    assert_ne!(base, key("d1", "<p>HI</p>", 80_000, true), "html");
    assert_ne!(base, key("d1", "<p>hi</p>", 40_000, true), "max_bytes");
    assert_ne!(
        base,
        key("d1", "<p>hi</p>", 80_000, false),
        "images_enabled"
    );
    assert_eq!(base, key("d1", "<p>hi</p>", 80_000, true), "stable");
}

fn fnv_reference(parts: &[&[u8]]) -> u64 {
    let mut h: u64 = 0xcbf2_9ce4_8422_2325;
    for p in parts {
        for &b in *p {
            h ^= b as u64;
            h = h.wrapping_mul(0x0000_0100_0000_01b3);
        }
    }
    h
}

#[test]
fn key_is_sixteen_hex_digits_of_fnv1a() {
    let k = key("d1", "<p>hi</p>", 80_000, true);
    let expect = fnv_reference(&[
        &1u32.to_le_bytes(),
        b"d1",
        &[0],
        &80_000u64.to_le_bytes(),
        &[1],
        b"<p>hi</p>",
    ]);
    assert_eq!(k, format!("{expect:016x}"));
    assert_eq!(k.len(), 16);
}

#[test]
fn cache_settings_from_config() {
    let c = Cache::from_config(&CacheConfig { enabled: true, dir: None, expiry_days: 7 }, "/c");
    assert_eq!(c.dir(), "/c");
    assert!(c.enabled());
    assert_eq!(c.expiry_secs(), 7 * 86_400);
    let c2 = Cache::from_config(
        &CacheConfig { enabled: false, dir: Some("/x".into()), expiry_days: u64::MAX },
        "/c",
    );
    assert_eq!(c2.dir(), "/x");
    assert!(!c2.enabled());
    assert_eq!(c2.expiry_secs(), u64::MAX);
}

#[test]
fn default_cache_dir_prefers_xdg_then_home() {
    assert_eq!(default_cache_dir(Some("/x"), Some("/h"), "/tmp"), "/x/rmreader");
    assert_eq!(default_cache_dir(Some(""), Some("/h"), "/tmp"), "/h/.cache/rmreader");
    assert_eq!(default_cache_dir(None, None, "/tmp/"), "/tmp/rmreader-cache");
}

#[test]
fn sweep_removes_stale_temp_and_partial_entries() {
    let c = Cache::new("/c".into(), true, 1);
    let day: u128 = 86_400 * 1_000_000_000;
    assert!(!c.sweep_removes("fresh", true, Some(day)));
    assert!(c.sweep_removes("stale", true, Some(day + 1)));
    assert!(c.sweep_removes(".tmp-junk", true, Some(0)));
    assert!(c.sweep_removes("partial", true, None));
    assert!(!c.sweep_removes("file", false, None));
    let off = Cache::new("/c".into(), false, 1);
    assert!(!off.sweep_removes(".tmp-junk", true, None));
}

#[test]
fn only_current_format_entries_are_used() {
    assert!(rmreader::cache::is_current_format(rmreader::cache::CACHE_FORMAT_VERSION));
    assert!(!rmreader::cache::is_current_format(rmreader::cache::CACHE_FORMAT_VERSION + 1));
    assert!(!rmreader::cache::is_current_format(0));
}
