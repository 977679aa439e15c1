use knots::builder::Builder;
use knots::parser::parse;
use knots::transpiler::Assets;
use knots::transpiler::transpile;

fn empty_assets() -> Assets {
    Assets {
        normalize_css: String::new(),
        style_css: String::new(),
        katex_css: String::from("KATEX-STYLE"),
        katex_js: String::from("KATEX-SCRIPT"),
        prism_css: String::from("PRISM-STYLE"),
        prism_js: String::from("PRISM-SCRIPT"),
        profile_icon: String::from("PROFILE-ICON"),
        ereader_icon: String::from("EREADER-ICON"),
        link_icon: String::from("LINK-ICON"),
        info_icon: String::from("INFO-ICON"),
        warning_icon: String::from("WARNING-ICON"),
        error_icon: String::from("ERROR-ICON"),
    }
}

fn render(input: &str) -> String {
    let pr = parse(input, "doc.knots").unwrap();
    transpile(pr, &empty_assets(), Vec::new()).unwrap()
}

#[test]
fn tags_are_balanced_over_a_whole_document() {
    let out = render("# Title\n\nSome *text* here.\n\n- a\n- b\n");
    assert!(out.starts_with("<!DOCTYPE html>\n"));
    assert!(out.ends_with("</html>\n"));
    let opens = out.matches("<div").count();
    let closes = out.matches("</div>").count();
    assert_eq!(opens, closes);
}

#[test]
fn start_and_end_tag_write_matching_lines() {
    let mut b = Builder::new();
    b.start_tag("div", &[("class", "x")]);
    b.end_tag();
    assert_eq!(b.into_result(), "<div class=\"x\">\n</div>\n");
}

#[test]
fn write_content_indents_every_line() {
    let mut b = Builder::new();
    b.start_tag("pre", &[]);
    b.write_content("a\nb\r\nc");
    b.end_tag();
    assert_eq!(b.into_result(), "<pre>\n\ta\n\tb\n\tc\n</pre>\n");
}

#[test]
fn inline_and_orphan_tags() {
    let mut b = Builder::new();
    b.inline_tag("a", &[("href", "#x")], "go");
    b.orphan_tag("hr", &[]);
    assert_eq!(b.into_result(), "<a href=\"#x\">go</a>\n<hr>\n");
}

#[test]
fn first_three_level_one_headings_are_numbered() {
    let mut b = Builder::new();
    let t1 = b.add_title(1, "Alpha");
    let t2 = b.add_title(1, "Beta");
    let t3 = b.add_title(1, "Gamma");
    assert_eq!(t1.name, "I - Alpha");
    assert_eq!(t2.name, "II - Beta");
    assert_eq!(t3.name, "III - Gamma");
}

#[test]
fn level_two_headings_run_through_the_alphabet_and_clamp() {
    let mut b = Builder::new();
    b.add_title(1, "Section");
    let mut last = String::new();
    for _ in 0..27 {
        last = b.add_title(2, "Sub").name;
    }
    // The twenty-seventh letter label clamps to the last letter.
    assert!(last.starts_with("Z - "));
    let t = b.add_title(1, "Next");
    assert_eq!(t.name, "II - Next");
    let sub = b.add_title(2, "Fresh");
    assert_eq!(sub.name, "A - Fresh");
}

#[test]
fn anchors_embed_the_counters() {
    let mut b = Builder::new();
    b.add_title(1, "One");
    let a1 = b.add_title(2, "Same Text");
    b.add_title(1, "Two");
    let a2 = b.add_title(2, "Same Text");
    assert_eq!(a1.anchor, "1-1-Same-Text");
    assert_eq!(a2.anchor, "2-1-Same-Text");
    assert_ne!(a1.anchor, a2.anchor);
}

#[test]
fn anchor_slug_drops_foreign_characters() {
    let mut b = Builder::new();
    let t = b.add_title(3, "What? a/b c_d!");
    assert_eq!(t.anchor, "0-0-part-What?-ab-c_d!");
}

#[test]
fn maths_placeholder_ids_increase_across_kinds() {
    let out = render("$x$\n\n$$y$$\n");
    let first = out.find("maths1").expect("the first maths id");
    let second = out.find("maths2").expect("the second maths id");
    assert!(first < second);
    assert!(!out.contains("maths3"));
    assert!(out.contains("katex.render(String.raw`x`, document.getElementById('maths1')"));
    assert!(out.contains("katex.render(String.raw`y`, document.getElementById('maths2')"));
}

#[test]
fn maths_assets_appear_only_when_needed() {
    let with = render("$x$\n");
    assert!(with.contains("KATEX-STYLE"));
    assert!(with.contains("KATEX-SCRIPT"));
    let without = render("plain\n");
    assert!(!without.contains("KATEX-STYLE"));
    assert!(!without.contains("PRISM-STYLE"));
}

#[test]
fn code_blocks_pull_in_highlighting_and_escape_contents() {
    let out = render("```html\n<b>&amp;</b>\n```\n");
    assert!(out.contains("PRISM-STYLE"));
    assert!(out.contains("PRISM-SCRIPT"));
    assert!(out.contains("language-html"));
    assert!(out.contains("&lt;b&gt;&amp;amp;&lt;/b&gt;"));
}

#[test]
fn inline_code_is_escaped() {
    let out = render("`<x>`\n");
    assert!(out.contains("&lt;x&gt;"));
    assert!(!out.contains("<x>"));
}

#[test]
fn web_images_are_linked_directly() {
    let out = render("![a cat](https://example.org/cat.png)\n");
    assert!(out.contains("src=\"https://example.org/cat.png\""));
}

#[test]
fn local_images_are_embedded_from_stored_bytes() {
    let pr = parse("![a](pic.bin)\n", "doc.knots").unwrap();
    let images = vec![(String::from("pic.bin"), b"abc".to_vec())];
    let out = transpile(pr, &empty_assets(), images).unwrap();
    assert!(out.contains("src=\"data:application/octet-stream;base64,YWJj\""));
}

#[test]
fn missing_local_image_refuses_the_render() {
    let pr = parse("![a](absent.bin)\n", "doc.knots").unwrap();
    let r = transpile(pr, &empty_assets(), Vec::new());
    assert!(r.is_err());
}

#[test]
fn heading_links_appear_in_the_summary() {
    let out = render("# Intro\n");
    assert!(out.contains("I - Intro"));
    assert!(out.contains("href=\"#1-Intro\""));
    assert!(out.contains("LINK-ICON"));
}

#[test]
fn title_authors_and_license_are_written() {
    let pr = parse("%title The Doc\n%author Ada\n%author Grace\n%license MIT\nBody\n", "f").unwrap();
    let out = transpile(pr, &empty_assets(), Vec::new()).unwrap();
    assert!(out.contains("The Doc"));
    assert!(out.contains("Ada, Grace"));
    assert!(out.contains("This work is available under the MIT license"));
    assert!(out.contains("EREADER-ICON"));
    assert!(out.contains("PROFILE-ICON"));
}

#[test]
fn callout_boxes_carry_their_decorations() {
    let out = render("?> note\n!> careful\nx> broken\n");
    assert!(out.contains("INFO-ICON"));
    assert!(out.contains("WARNING-ICON"));
    assert!(out.contains("ERROR-ICON"));
    assert!(out.contains("class=\"infobox\""));
    assert!(out.contains("class=\"warningbox\""));
    assert!(out.contains("class=\"errorbox\""));
}

#[test]
fn diagram_blocks_raise_the_diagram_flag_output() {
    let out = render("```mermaid\ngraph TD\n```\n");
    assert!(out.contains("class=\"mermaid\""));
}

#[test]
fn languages_are_noted_once() {
    let mut b = Builder::new();
    b.note_language("rust");
    b.note_language("rust");
    b.note_language("html");
    assert_eq!(b.languages, vec![String::from("rust"), String::from("html")]);
}

#[test]
fn tables_render_header_and_data_cells() {
    let out = render("|h1|h2|\n|---|---|\n|c1|c2|\n");
    assert!(out.contains("<table>"));
    assert!(out.contains("<th>"));
    assert!(out.contains("<td>"));
    assert!(out.contains("h1"));
    assert!(out.contains("c2"));
}

#[test]
fn local_image_targets_are_collected() {
    let pr = parse("![a](one.png)\n\n![b](https://x/y.png)\n\n![c](two.png)\n", "f").unwrap();
    let mut targets: Vec<String> = Vec::new();
    knots::knots_objects::local_image_targets(&pr.root_object, &mut targets);
    assert_eq!(targets, vec![String::from("one.png"), String::from("two.png")]);
}

#[test]
fn deferred_maths_statements_accumulate() {
    let mut b = Builder::new();
    b.write_katex_content("x^2", "maths1");
    let deferred = b.get_katex_content();
    assert_eq!(
        deferred,
        "katex.render(String.raw`x^2`, document.getElementById('maths1'), { throwOnError: false });\n"
    );
}

#[test]
fn summary_records_every_heading() {
    let mut b = Builder::new();
    b.add_title(1, "One");
    b.add_title(2, "Two");
    b.add_title(3, "Three");
    let summary = b.get_summary();
    assert_eq!(summary.len(), 3);
    assert_eq!(summary[0].level, 1);
    assert_eq!(summary[2].level, 3);
}

#[test]
fn fresh_builder_yields_an_empty_buffer() {
    let b = Builder::new();
    assert_eq!(b.into_result(), "");
}
