use rmreader::manifest::PageRange;
use rmreader::render::regions::{page_ranges, Region};
use rmreader::render::typst_doc::{build, esc_markup, esc_str, Article, Row};
use rmreader::theme::{css_vars, reader_palette, theme_source, Palette, ThemeError, ThemeSource};

fn region(name: &str, page: usize) -> Region {
    Region { name: name.into(), page }
}

#[test]
fn page_ranges_run_to_the_next_article() {
    let order = vec!["article-a".to_string(), "article-b".to_string(), "article-c".to_string()];
    let regions = vec![
        region("action-INBOX", 1),
        region("art-article-a", 1),
        region("art-article-a", 2),
        region("art-article-c", 4),
        region("art-article-c", 5),
    ];
    let r = page_ranges(&order, &regions, 7);
    assert_eq!(
        r,
        vec![
            ("article-a".to_string(), PageRange { first: 1, last: 3 }),
            ("article-c".to_string(), PageRange { first: 4, last: 6 }),
        ]
    );
    assert!(page_ranges(&order, &[], 3).is_empty());
}

#[test]
fn escaping_for_strings_and_markup() {
    assert_eq!(esc_str("a\"b\\c"), "a\\\"b\\\\c");
    assert_eq!(esc_markup("#1 *x* <y>"), "\\#1 \\*x\\* \\<y\\>");
}

#[test]
fn document_source_holds_rows_and_articles() {
    let rows = vec![Row {
        num: "01".into(),
        title: "Hello".into(),
        author: "Ann".into(),
        reading_time: "3 min".into(),
        anchor: "article-a".into(),
    }];
    let arts = vec![Article {
        anchor: "article-a".into(),
        title: "Hello".into(),
        byline: "Ann · 3 min".into(),
        body: "Body text".into(),
    }];
    let src = build("260.18", "462.55", &reader_palette(), "Library", &rows, &arts);
    assert!(src.contains("260.18pt"), "{src}");
    assert!(src.contains("Body text"));
    assert!(src.contains("art-article-a"));
    assert!(src.contains("Library"));
    let again = build("260.18", "462.55", &reader_palette(), "Library", &rows, &arts);
    assert_eq!(src, again, "same input must produce the same source");
}

#[test]
fn themes_resolve_and_render_css_vars() {
    assert!(matches!(theme_source("reader"), Ok(ThemeSource::Builtin(_))));
    assert!(matches!(theme_source("x/dark.toml"), Ok(ThemeSource::File(f)) if f == "x/dark.toml"));
    assert!(matches!(theme_source("dark"), Err(ThemeError::Unknown { .. })));
    let p = Palette { entries: vec![("ink".into(), "#111".into()), ("paper".into(), "#fff".into())] };
    assert_eq!(css_vars(&p), ":root{--ink:#111;--paper:#fff;}");
    assert_eq!(reader_palette().get("accent").map(|s| s.as_str()), Some("#CF3A2B"));
}

#[test]
fn article_order_array_escapes_each_id_once() {
    let art = |a: &str| Article { anchor: a.into(), title: "T".into(), byline: "B".into(), body: "x".into() };
    let src = build("1", "2", &reader_palette(), "Library", &[], &[art("a\"b"), art("c\\d")]);
    assert!(src.contains("#let order = (\"a\\\"b\", \"c\\\\d\", )"), "{src}");
    let src = build("1", "2", &reader_palette(), "Library", &[], &[]);
    assert!(src.contains("#let order = ()"));
}

#[test]
fn stylesheet_holds_palette_and_page_size() {
    let p = reader_palette();
    let css = rmreader::render::css::build_css("260.18", "462.55", &p);
    assert!(css.starts_with(&css_vars(&p)));
    assert!(css.contains("\n@page { size: 260.18pt 462.55pt; margin: 0; background: var(--paper); }\n"));
    assert!(css.ends_with(".index-row .rt { font-family:\"Hanken Grotesk\",sans-serif; font-size:7.5pt; color:var(--muted); }\n"));
}

#[test]
fn theme_file_text_becomes_a_sorted_palette() {
    let p = rmreader::theme::palette_from_file_text("paper = \"#fff\"\nink = \"#111\"\n").unwrap();
    assert_eq!(p.entries, vec![("ink".to_string(), "#111".to_string()), ("paper".to_string(), "#fff".to_string())]);
    assert!(matches!(rmreader::theme::palette_from_file_text("ink = 1"), Err(ThemeError::Invalid { .. })));
    assert!(matches!(rmreader::theme::palette_from_file_text("not toml ="), Err(ThemeError::Invalid { .. })));
}
