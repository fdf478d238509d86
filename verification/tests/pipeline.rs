use rmreader::generate::{drop_empty, fill_page_ranges, image_ext, union_urls};
use rmreader::manifest::{EmbeddedDoc, EmbeddedManifest, PageRange};
use rmreader::postprocess::{article_starts, hex_rgb, nav_plan, NavPage};
use rmreader::readwise::Document;

fn d(id: &str, html: Option<&str>) -> Document {
    Document {
        id: id.into(),
        url: String::new(),
        source_url: String::new(),
        title: String::new(),
        author: String::new(),
        site_name: String::new(),
        category: "article".into(),
        location: "new".into(),
        summary: String::new(),
        image_url: String::new(),
        word_count: None,
        reading_time: None,
        published_date: None,
        saved_at: String::new(),
        html_content: html.map(|s| s.to_string()),
    }
}

#[test]
fn docs_without_reader_text_are_dropped() {
    let docs = vec![d("a", Some("<p>x</p>")), d("b", None), d("c", Some(" \n ")), d("e", Some("y"))];
    let kept = drop_empty(docs);
    assert_eq!(kept.iter().map(|d| d.id.as_str()).collect::<Vec<_>>(), vec!["a", "e"]);
}

#[test]
fn image_urls_are_fetched_once_in_first_seen_order() {
    let lists = vec![
        vec!["u1".to_string(), "u2".to_string()],
        vec![],
        vec!["u2".to_string(), "u3".to_string(), "u1".to_string()],
    ];
    assert_eq!(union_urls(&lists), vec!["u1", "u2", "u3"]);
}

#[test]
fn rendered_ranges_fill_the_manifest() {
    let doc = |id: &str| EmbeddedDoc {
        id: id.into(),
        title: String::new(),
        url: String::new(),
        author: String::new(),
        category: String::new(),
        page_range: PageRange { first: 0, last: 0 },
    };
    let mut m = EmbeddedManifest { schema_version: 1, collection: "Feed".into(), docs: vec![doc("a"), doc("b")] };
    fill_page_ranges(&mut m, &[("article-b".into(), PageRange { first: 3, last: 5 })]);
    assert_eq!(m.docs[0].page_range, PageRange { first: 0, last: 0 });
    assert_eq!(m.docs[1].page_range, PageRange { first: 3, last: 5 });
    assert_eq!(m.collection, "Feed");
}

#[test]
fn nav_links_point_to_neighbouring_articles() {
    let starts = article_starts(&[1, 3, 4, 9], 3);
    assert_eq!(starts, vec![1, 3, 4]);
    let plan = nav_plan(&starts, 6);
    assert_eq!(plan.len(), 5);
    assert_eq!(plan[0], NavPage { page: 1, prev: None, next: Some(3) });
    assert_eq!(plan[1], NavPage { page: 2, prev: None, next: Some(3) });
    assert_eq!(plan[2], NavPage { page: 3, prev: Some(1), next: Some(4) });
    assert_eq!(plan[4], NavPage { page: 5, prev: Some(3), next: None });
    assert!(nav_plan(&[], 6).is_empty());
}

#[test]
fn image_ext_follows_content_type() {
    assert_eq!(image_ext("text/html"), None);
    assert_eq!(image_ext(""), None);
    assert_eq!(image_ext("image/svg+xml").as_deref(), Some("svg"));
    assert_eq!(image_ext("image/jpeg").as_deref(), Some("jpg"));
    assert_eq!(image_ext("image/jpg; charset=binary").as_deref(), Some("jpg"));
    assert_eq!(image_ext("image/png").as_deref(), Some("png"));
    assert_eq!(image_ext("image/gif").as_deref(), Some("gif"));
    assert_eq!(image_ext("image/webp").as_deref(), Some("webp"));
    assert_eq!(image_ext("image/avif").as_deref(), Some("bin"));
}

#[test]
fn hex_rgb_parses_theme_colours() {
    assert_eq!(hex_rgb("#1a2B3c"), Some((0x1a, 0x2b, 0x3c)));
    assert_eq!(hex_rgb("  ffffff "), Some((255, 255, 255)));
    assert_eq!(hex_rgb("##000000"), Some((0, 0, 0)));
    assert_eq!(hex_rgb("#fff"), None);
    assert_eq!(hex_rgb("#gg0000"), None);
    assert_eq!(hex_rgb(""), None);
    assert_eq!(hex_rgb("+f+f+f"), Some((15, 15, 15)));
}

#[test]
fn each_page_reads_back_to_its_article() {
    let doc = |id: &str, first: usize, last: usize| EmbeddedDoc {
        id: id.into(),
        title: String::new(),
        url: String::new(),
        author: String::new(),
        category: String::new(),
        page_range: PageRange { first, last },
    };
    let m = EmbeddedManifest {
        schema_version: 1,
        collection: "Library".into(),
        docs: vec![doc("a", 1, 3), doc("b", 4, 4), doc("c", 5, 8)],
    };
    let owner = |p: usize| m.doc_for_page(p).map(|d| d.id.clone());
    assert_eq!(owner(0), None);
    assert_eq!(owner(1).as_deref(), Some("a"));
    assert_eq!(owner(3).as_deref(), Some("a"));
    assert_eq!(owner(4).as_deref(), Some("b"));
    assert_eq!(owner(8).as_deref(), Some("c"));
    assert_eq!(owner(9), None);
}
