use url_md::parser::{extract_attr, html_to_markdown, remove_attr, restore_lazy_image_src, rewrite_img};

fn chars(s: &str) -> Vec<char> {
    s.chars().collect()
}

fn text(v: &[char]) -> String {
    v.iter().collect()
}

#[test]
fn restores_data_src_when_src_is_empty() {
    let html = r#"<img src="" data-src="https://example.com/x.jpg" alt="a" />"#;
    let out = restore_lazy_image_src(html);
    assert!(out.contains(r#"src="https://example.com/x.jpg""#), "got: {out}");
    assert!(!out.contains("data-src="), "data-src should be removed: {out}");
}

#[test]
fn restores_data_src_when_no_src() {
    let html = r#"<img data-src="https://example.com/y.jpg" class="z" />"#;
    let out = restore_lazy_image_src(html);
    assert!(out.contains(r#"src="https://example.com/y.jpg""#), "got: {out}");
}

#[test]
fn preserves_existing_real_src_without_data_src() {
    let html = r#"<img src="https://example.com/real.jpg" />"#;
    let out = restore_lazy_image_src(html);
    assert!(out.contains(r#"src="https://example.com/real.jpg""#));
}

#[test]
fn does_not_confuse_src_with_data_src_attr_name() {
    let html = r#"<img data-src="real.jpg" />"#;
    let out = restore_lazy_image_src(html);
    assert!(out.contains(r#"src="real.jpg""#), "got: {out}");
}

#[test]
fn html_to_markdown_produces_image_link() {
    let html = r#"<p>see <img data-src="https://example.com/z.jpg" alt="z"></p>"#;
    let md = html_to_markdown(html);
    assert!(md.contains("https://example.com/z.jpg"), "got: {md}");
}

#[test]
fn handles_multiple_imgs() {
    let html = r#"<img data-src="a.jpg"><img src="b.jpg"><img data-src="c.jpg" />"#;
    let out = restore_lazy_image_src(html);
    assert!(out.contains(r#"src="a.jpg""#));
    assert!(out.contains(r#"src="b.jpg""#));
    assert!(out.contains(r#"src="c.jpg""#));
}

#[test]
fn restore_exact_output() {
    let html = r#"<img src="" data-src="https://e.com/x.jpg" alt="a" />"#;
    assert_eq!(restore_lazy_image_src(html), r#"<img alt="a"  src="https://e.com/x.jpg">"#);
    assert_eq!(restore_lazy_image_src(r#"<p><img src="b.jpg"/></p>"#), r#"<p><img src="b.jpg"></p>"#);
}

#[test]
fn restore_without_img_is_identity() {
    let html = "<p>no images, just <b>text</b> &amp; an <image> word</p>";
    assert_eq!(restore_lazy_image_src(html), html);
}

#[test]
fn empty_data_src_is_ignored() {
    let html = r#"<img src="a.jpg" data-src="">"#;
    assert_eq!(restore_lazy_image_src(html), html);
}

#[test]
fn attribute_helpers() {
    assert_eq!(extract_attr(&chars(r#" data-src="u" src="v""#), &chars("src")).map(|v| text(&v)), Some("v".to_string()));
    assert_eq!(extract_attr(&chars(r#" data-src = "u""#), &chars("data-src")).map(|v| text(&v)), Some("u".to_string()));
    assert_eq!(extract_attr(&chars(r#" alt="x""#), &chars("src")), None);
    assert_eq!(text(&remove_attr(&chars(r#" src="a" alt="b" src="c""#), &chars("src"))), r#" alt="b""#);
    assert_eq!(text(&rewrite_img(&chars(r#" data-src="u""#))), r#"<img src="u">"#);
    assert_eq!(text(&rewrite_img(&chars(r#" alt="x""#))), r#"<img alt="x">"#);
}
