//! The stylesheet for rendering a collection through HTML: the palette's
//! custom properties, the page box and the article and index styles.
use vstd::prelude::*;

use crate::text::extend_str;
use crate::theme::{css_vars, css_vars_spec, palette_view, palette_wf, Palette};

verus! {

/// Everything between the custom properties and the page width.
pub const CSS_HEAD: &'static str = "
/* The ENGINE margin (set in render_pdf) reserves space on EVERY physical page —
top 58pt (~36pt the device toolbar overlays + the post-processed nav bar below
it), sides 16pt, bottom 30pt — so flowing articles never reach the toolbar/nav
band on any page. @page only carries size + paper background. */
@page { size: ";

/// Everything after the page height.
pub const CSS_TAIL: &'static str = "pt; margin: 0; background: var(--paper); }
* { box-sizing: border-box; margin: 0; padding: 0; }
html, body { margin: 0; padding: 0; background: var(--paper); }
body { font-family: \"Lora\", serif; color: var(--ink); font-size:9.5pt; }
.article { break-before: page; }
.headline { font-weight:600; font-size:16pt; line-height:1.12; color:var(--heading); letter-spacing:-.01em; bookmark-level:1; }
.byline { font-family:\"Hanken Grotesk\",sans-serif; font-size:8pt; color:var(--muted); margin-top:6pt; }
.hr { height:0.5pt; background:var(--rule); margin:8pt 0; }
.body { font-size:9.5pt; line-height:1.4; color:var(--ink); }
.body p { margin:0 0 4.5pt; }
.body a { color:var(--accent); text-decoration:underline; }
.body img { max-width:100%; height:auto; }
.body.drop p:first-of-type::first-letter { font-weight:600; color:var(--accent); float:left; font-size:2.7em; line-height:.82; padding:3pt 5pt 0 0; }
.index-title { display:inline-block; font-weight:600; font-size:16pt; color:var(--paper); background:var(--accent); padding:3pt 10pt 4pt; border-radius:4pt; letter-spacing:-.01em; }
.index-sub { font-family:\"Hanken Grotesk\",sans-serif; font-size:7.5pt; letter-spacing:.12em; text-transform:uppercase; color:var(--muted); margin:10pt 0 9pt; }
.index-row { display:flex; gap:8pt; padding:4pt 0; border-bottom:0.5pt solid var(--rule); text-decoration:none; color:var(--ink); break-inside:avoid; }
.index-row .n { color:var(--accent); font-weight:600; font-size:9pt; width:14pt; }
.index-row .t { flex:1; font-size:9.5pt; line-height:1.3; }
.index-row .rt { font-family:\"Hanken Grotesk\",sans-serif; font-size:7.5pt; color:var(--muted); }
";

pub open spec fn build_css_spec(
    page_w: Seq<char>,
    page_h: Seq<char>,
    theme: Seq<(Seq<char>, Seq<char>)>,
) -> Seq<char> {
    css_vars_spec(theme) + CSS_HEAD@ + page_w + "pt "@ + page_h + CSS_TAIL@
}

/// The stylesheet for a page of `page_w` x `page_h` points (written as
/// decimal text) in the palette's colours.
pub fn build_css(page_w: &str, page_h: &str, theme: &Palette) -> (r: String)
    requires
        palette_wf(palette_view(*theme)),
    ensures
        r@ == build_css_spec(page_w@, page_h@, palette_view(*theme)),
{
    let vars = css_vars(theme);
    let mut v: Vec<char> = Vec::new();
    extend_str(&mut v, vars.as_str());
    extend_str(&mut v, CSS_HEAD);
    extend_str(&mut v, page_w);
    extend_str(&mut v, "pt ");
    extend_str(&mut v, page_h);
    extend_str(&mut v, CSS_TAIL);
    assert(v@ =~= build_css_spec(page_w@, page_h@, palette_view(*theme)));
    crate::text::string_of(&v)
}

} // verus!
