use rmreader::assemble::{assemble_document, byline, remove_title_headings, title_or};
use rmreader::manifest::{Manifest, ManifestItem, PageRange};
use rmreader::readwise::Document;

fn doc(id: &str) -> Document {
    Document {
        id: id.into(),
        url: format!("https://ex/{id}"),
        source_url: String::new(),
        title: format!("Title {id}"),
        author: "Auth".into(),
        site_name: "Site".into(),
        category: "article".into(),
        location: "new".into(),
        summary: "Sum".into(),
        image_url: String::new(),
        word_count: Some(500),
        reading_time: Some("3 min".into()),
        published_date: None,
        saved_at: "2026-01-01T00:00:00Z".into(),
        html_content: Some("<p>Body</p>".into()),
    }
}

fn byline_doc(author: &str, site: &str) -> Document {
    Document {
        id: "d".into(),
        url: String::new(),
        source_url: String::new(),
        title: "T".into(),
        author: author.into(),
        site_name: site.into(),
        category: "article".into(),
        location: "new".into(),
        summary: String::new(),
        image_url: String::new(),
        word_count: None,
        reading_time: Some("3 mins".into()),
        published_date: None,
        saved_at: "2026-01-01T00:00:00Z".into(),
        html_content: None,
    }
}

#[test]
fn byline_dedupes_author_and_site() {
    assert_eq!(
        byline(&byline_doc("James Clear", "James Clear")),
        "James Clear · 3 mins"
    );
    assert_eq!(
        byline(&byline_doc("Alice", "The Times")),
        "Alice · The Times · 3 mins"
    );
    assert_eq!(byline(&byline_doc("", "")), "3 mins");
}

#[test]
fn removes_body_heading_matching_title() {
    let out = remove_title_headings("<h1>My Title</h1><p>real body</p>", "My  Title");
    assert!(
        !out.contains("<h1>"),
        "title heading should be removed: {out}"
    );
    assert!(out.contains("real body"));
}

#[test]
fn keeps_non_title_heading() {
    let out = remove_title_headings("<h2>Section Two</h2><p>body</p>", "My Title");
    assert!(out.contains("Section Two"));
}

#[test]
fn builds_linked_document_and_manifest() {
    let docs = vec![doc("a"), doc("b")];
    let built = assemble_document("Library", &docs, |html, _id| {
        (html.to_string(), vec![] as Vec<(String, Vec<u8>)>)
    });
    let html = built.fragments.join("\n");
    assert!(html.contains("id=\"article-a\""));
    assert!(html.contains("href=\"#article-a\""));
    assert!(!html.contains("item-a"));
    assert_eq!(built.manifest.items.len(), 2);
    assert_eq!(built.manifest.items[0].id, "a");
    assert_eq!(built.manifest.items[0].article_anchor, "article-a");
}

#[test]
fn manifest_items_carry_readwise_metadata() {
    let mut d = doc("a");
    d.author = "Jane Doe".into();
    d.source_url = "https://original.example/article".into();
    d.category = "tweet".into();

    let built = assemble_document("Library", &[d], |html, _id| {
        (html.to_string(), vec![] as Vec<(String, Vec<u8>)>)
    });

    let item = &built.manifest.items[0];
    assert_eq!(item.author, "Jane Doe");
    assert_eq!(item.source_url, "https://original.example/article");
    assert_eq!(item.category, "tweet");
}

#[test]
fn to_embedded_prefers_source_url_and_defaults_page_range() {
    let manifest_with_source = Manifest {
        collection: "Feed".into(),
        items: vec![ManifestItem {
            id: "x1".into(),
            title: "Test Article".into(),
            url: "https://readwise.io/reader/x1".into(),
            article_anchor: "article-x1".into(),
            author: "Alice".into(),
            source_url: "https://original.example/x1".into(),
            category: "article".into(),
            page_range: None,
        }],
    };

    let embedded = manifest_with_source.to_embedded();
    assert_eq!(embedded.schema_version, 1);
    assert_eq!(embedded.collection, "Feed");
    assert_eq!(embedded.docs.len(), 1);
    let d = &embedded.docs[0];
    assert_eq!(d.url, "https://original.example/x1");
    assert_eq!(d.page_range, PageRange { first: 0, last: 0 });

    let manifest_no_source = Manifest {
        collection: "Library".into(),
        items: vec![ManifestItem {
            id: "x2".into(),
            title: "Another Article".into(),
            url: "https://readwise.io/reader/x2".into(),
            article_anchor: "article-x2".into(),
            author: "Bob".into(),
            source_url: String::new(),
            category: "article".into(),
            page_range: None,
        }],
    };

    let embedded2 = manifest_no_source.to_embedded();
    let d2 = &embedded2.docs[0];
    assert_eq!(d2.url, "https://readwise.io/reader/x2");
    assert_eq!(d2.page_range, PageRange { first: 0, last: 0 });
}

#[test]
fn typst_rows_and_articles_share_anchors_and_number_rows() {
    let docs = vec![doc("a"), doc("b")];
    let built = assemble_document("Library", &docs, |html, id| {
        (format!("{html}<p>{id}</p>"), vec![(format!("img-{id}-0.png"), vec![1u8])])
    });
    assert_eq!(built.typst_rows.len(), 2);
    assert_eq!(built.typst_rows[0].num, "01");
    assert_eq!(built.typst_rows[1].num, "02");
    assert_eq!(built.typst_rows[1].anchor, "article-b");
    assert_eq!(built.typst_articles[1].anchor, "article-b");
    assert_eq!(built.typst_articles[0].title, "Title a");
    assert_eq!(built.typst_articles[0].byline, "Auth · Site · 3 min");
    assert_eq!(built.typst_articles[0].body, "Body\n\na");
    assert_eq!(built.assets.len(), 2);
    assert_eq!(built.assets[1].0, "img-b-0.png");
    assert_eq!(built.fragments.len(), 3);
    assert!(built.fragments[0].contains("2 articles"));
}

#[test]
fn title_falls_back_to_site_then_untitled() {
    let mut d = doc("a");
    d.title = "   ".into();
    assert_eq!(title_or(&d), "Site");
    d.site_name = String::new();
    assert_eq!(title_or(&d), "Untitled");
}

#[test]
fn blank_reading_time_shows_dash() {
    let mut d = byline_doc("Alice", "");
    d.reading_time = Some("  ".into());
    assert_eq!(byline(&d), "Alice · —");
    d.reading_time = None;
    assert_eq!(byline(&d), "Alice · —");
}

#[test]
fn site_equal_to_author_ignoring_ascii_case_is_dropped() {
    assert_eq!(byline(&byline_doc("alice", "ALICE")), "alice · 3 mins");
}

#[test]
fn title_heading_removal_is_a_no_op_for_blank_title() {
    let html = "<h1> </h1><p>x</p>";
    assert_eq!(remove_title_headings(html, "   "), html);
}

#[test]
fn unterminated_heading_is_kept() {
    let html = "<h1>My Title<p>x</p>";
    assert_eq!(remove_title_headings(html, "My Title"), html);
}

#[test]
fn nested_tags_in_title_heading_are_ignored_for_matching() {
    let out = remove_title_headings("<p>a</p><h2 class=\"t\"><em>My</em> TITLE</h2><p>b</p>", "my title");
    assert_eq!(out, "<p>a</p><p>b</p>");
}

#[test]
fn html_in_text_fields_is_escaped_in_fragments() {
    let mut d = doc("a");
    d.title = "A <b> & \"c\"".into();
    let built = assemble_document("L&L", &[d], |html, _| (html.to_string(), vec![]));
    assert!(built.fragments[0].contains("L&amp;L"));
    assert!(built.fragments[1].contains("A &lt;b&gt; &amp; &quot;c&quot;"));
}
