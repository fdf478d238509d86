use rmreader::render::html2typst::{convert, convert_nodes, HtmlNode, HtmlNodeKind};

#[test]
fn paragraphs_become_blank_line_separated() {
    let t = convert("<p>First paragraph.</p><p>Second one.</p>");
    assert_eq!(t, "First paragraph.\n\nSecond one.");
}

#[test]
fn bold_and_italic_and_links() {
    let t = convert(
        r#"<p>A <strong>bold</strong> and <em>it</em> <a href="https://x.com">lnk</a>.</p>"#,
    );
    assert_eq!(
        t,
        "A #strong[bold] and #emph[it] #link(\"https://x.com\")[lnk]."
    );
}

#[test]
fn images_reference_asset_path() {
    let t = convert(r#"<p>x</p><img src="img-a-0.png"><p>y</p>"#);
    assert!(
        t.contains("#block(image(\"/assets/img-a-0.png\", width: 100%))"),
        "got: {t}"
    );
}

#[test]
fn unordered_list_items() {
    let t = convert("<ul><li>one</li><li>two</li></ul>");
    assert_eq!(t, "- one\n- two");
}

#[test]
fn ordered_list_uses_plus() {
    let t = convert("<ol><li>one</li><li>two</li></ol>");
    assert_eq!(t, "+ one\n+ two");
}

#[test]
fn special_chars_escaped() {
    let t = convert("<p>C# costs $5 *wow*</p>");
    assert!(t.contains("C\\# costs \\$5 \\*wow\\*"), "got: {t}");
}

#[test]
fn source_newlines_do_not_break_paragraphs() {
    let t = convert("<p>line one\n  line two</p>");
    assert_eq!(t, "line one line two");
}

#[test]
fn blockquote_wraps() {
    let t = convert("<blockquote>quoted</blockquote>");
    assert!(t.contains("#quote(block: true)[quoted]"), "got: {t}");
}

#[test]
fn headings_use_sized_lora() {
    let t = convert("<h1>A</h1><h3>B</h3><h5>C</h5>");
    assert_eq!(
        t,
        "#text(font: \"Lora\", weight: \"semibold\", size: 12pt, fill: heading-col)[A]\n\n\
#text(font: \"Lora\", weight: \"semibold\", size: 11pt, fill: heading-col)[B]\n\n\
#text(font: \"Lora\", weight: \"semibold\", size: 10pt, fill: heading-col)[C]"
    );
}

#[test]
fn code_and_pre_become_raw() {
    let t = convert("<p>run <code>a \"b\"</code></p><pre>x\n<b>y</b></pre>");
    assert_eq!(t, "run #raw(\"a \\\"b\\\"\")\n\n#raw(block: true, \"x\ny\")");
}

#[test]
fn rules_breaks_and_captions() {
    let t = convert("<p>a<br>b</p><hr><figure><figcaption>cap</figcaption></figure>");
    assert_eq!(
        t,
        "a \\\nb\n\n#line(length: 100%, stroke: 0.5pt + rule-col)\n\n\
#text(font: \"Hanken Grotesk\", size: 8pt, fill: muted)[cap]"
    );
}

#[test]
fn link_without_href_is_flattened_and_unknown_tags_too() {
    let t = convert("<p><a>plain</a> <span>s<u>u</u></span></p>");
    assert_eq!(t, "plain su");
}

#[test]
fn image_without_src_is_dropped() {
    assert_eq!(convert("<p>a</p><img alt=\"x\"><p>b</p>"), "a\n\nb");
}

#[test]
fn runs_of_blank_lines_collapse_to_one() {
    let t = convert("<div><p>a</p></div><div></div><div><p>b</p></div>");
    assert!(!t.contains("\n\n\n"), "got: {t:?}");
    assert_eq!(t, "a\n\nb");
}

#[test]
fn nodes_are_walked_by_depth() {
    let el = |depth: usize, name: &str| HtmlNode {
        depth,
        kind: HtmlNodeKind::Element { name: name.into(), href: None, src: None },
    };
    let text = |depth: usize, s: &str| HtmlNode { depth, kind: HtmlNodeKind::Text(s.into()) };
    let nodes = vec![
        el(1, "html"),
        el(2, "strong"),
        text(3, "x"),
        text(2, "_y"),
    ];
    assert_eq!(convert_nodes(&nodes), "#strong[x]\\_y");
}
