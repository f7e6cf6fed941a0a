use url_md::downloader::{
    concurrency_from, extract_image_urls, finish_localization, guess_extension,
    guess_extension_is_defined, local_filename, plan_image_downloads, relative_ref,
    rewrite_image_links, DownloadStats,
};

#[test]
fn extract_simple_image() {
    let md = "![alt](https://example.com/x.jpg)";
    let out = extract_image_urls(md);
    assert_eq!(out.len(), 1);
    assert_eq!(out[0].0, "alt");
    assert_eq!(out[0].1, "https://example.com/x.jpg");
}

#[test]
fn extract_preserves_order_and_dedupes() {
    let md = "![a](https://e.com/1.jpg)\n![b](https://e.com/2.jpg)\n![c](https://e.com/1.jpg)";
    let out = extract_image_urls(md);
    assert_eq!(out.len(), 2);
    assert_eq!(out[0].1, "https://e.com/1.jpg");
    assert_eq!(out[1].1, "https://e.com/2.jpg");
}

#[test]
fn skips_non_http_urls() {
    let md = "![a](./local.jpg) ![b](https://e.com/x.png)";
    let out = extract_image_urls(md);
    assert_eq!(out.len(), 1);
    assert_eq!(out[0].1, "https://e.com/x.png");
}

#[test]
fn extract_keeps_first_alt_of_a_repeated_url() {
    let md = "![first](http://e.com/a.png) ![second](http://e.com/a.png)";
    let out = extract_image_urls(md);
    assert_eq!(out, vec![("first".to_string(), "http://e.com/a.png".to_string())]);
}

#[test]
fn extract_stops_url_at_whitespace_or_paren() {
    assert!(extract_image_urls("![a](https://e.com/a b.png)").is_empty());
    let out = extract_image_urls("![](https://e.com/x.png) tail");
    assert_eq!(out, vec![(String::new(), "https://e.com/x.png".to_string())]);
}

#[test]
fn guess_ext_from_wx_fmt() {
    assert_eq!(guess_extension("https://e.com/x/0?wx_fmt=jpeg"), "jpg");
    assert_eq!(guess_extension("https://e.com/x/0?wx_fmt=png"), "png");
    assert_eq!(guess_extension("https://e.com/x/0?wx_fmt=gif&k=v"), "gif");
    assert_eq!(guess_extension("https://e.com/x/0?wx_fmt=webp"), "webp");
}

#[test]
fn guess_ext_from_path() {
    assert_eq!(guess_extension("https://e.com/x.png"), "png");
    assert_eq!(guess_extension("https://e.com/path/y.JPEG"), "jpg");
    assert_eq!(guess_extension("https://e.com/x.gif?v=1"), "gif");
}

#[test]
fn guess_ext_fallback_to_jpg() {
    assert_eq!(guess_extension("https://e.com/noext"), "jpg");
}

#[test]
fn guess_ext_more_cases() {
    assert_eq!(guess_extension("https://e.com/a?WX_FMT=PNG"), "png");
    assert_eq!(guess_extension("https://e.com/a.svg"), "svg");
    assert_eq!(guess_extension("https://e.com/a.png?wx_fmt=unknown"), "png");
    assert_eq!(guess_extension("https://e.com/a.bmp"), "jpg");
}

#[test]
fn wx_fmt_offset_comes_from_the_lowercased_url() {
    // 'İ' takes 2 bytes but lowercases to 3, so the value is read one byte late.
    assert!(guess_extension_is_defined("https://e.com/İ?wx_fmt=png"));
    assert_eq!(guess_extension("https://e.com/İ?wx_fmt=png"), "jpg");
    assert!(guess_extension_is_defined("https://e.com/x?wx_fmt=png"));
}

#[test]
fn wx_fmt_cut_inside_a_character_is_undefined() {
    assert!(!guess_extension_is_defined("https://e.com/İ?wx_fmt=é"));
    assert_eq!(plan_image_downloads("![a](https://e.com/İ?wx_fmt=é)"), None);
    assert!(plan_image_downloads("![a](https://e.com/x?wx_fmt=é)").is_some());
}

#[test]
fn local_filename_uses_4_digit_padding() {
    assert_eq!(local_filename(0, "jpg"), "img-0001.jpg");
    assert_eq!(local_filename(9, "png"), "img-0010.png");
    assert_eq!(local_filename(999, "gif"), "img-1000.gif");
}

#[test]
fn local_filename_grows_past_four_digits() {
    assert_eq!(local_filename(9999, "webp"), "img-10000.webp");
}

#[test]
fn plan_names_images_in_order() {
    let md = "![a](https://e.com/1.png) ![b](https://e.com/2?wx_fmt=gif) ![c](https://e.com/1.png)";
    let jobs = plan_image_downloads(md).unwrap();
    assert_eq!(
        jobs,
        vec![
            ("https://e.com/1.png".to_string(), "img-0001.png".to_string()),
            ("https://e.com/2?wx_fmt=gif".to_string(), "img-0002.gif".to_string()),
        ]
    );
}

#[test]
fn rewrite_replaces_known_urls_only() {
    let md = "x ![a](https://e.com/1.png) y ![b](https://e.com/2.png) z";
    let map = vec![("https://e.com/1.png".to_string(), "assets/img-0001.png".to_string())];
    assert_eq!(
        rewrite_image_links(md, &map),
        "x ![a](assets/img-0001.png) y ![b](https://e.com/2.png) z"
    );
}

#[test]
fn finish_counts_and_keeps_failed_urls() {
    let md = "![a](https://e.com/1.png)\n![b](https://e.com/2.png)\n![c](https://e.com/1.png)";
    let jobs = plan_image_downloads(md).unwrap();
    let refs = vec![Some("assets/img-0001.png".to_string()), None];
    let (text, stats) = finish_localization(md, &jobs, &refs);
    assert_eq!(
        text,
        "![a](assets/img-0001.png)\n![b](https://e.com/2.png)\n![c](assets/img-0001.png)"
    );
    assert_eq!(stats.total, 2);
    assert_eq!(stats.downloaded, 1);
    assert_eq!(stats.failed, 1);
    assert_eq!(stats.skipped, 0);
}

#[test]
fn finish_without_images_leaves_text() {
    let md = "no images here";
    let jobs = plan_image_downloads(md).unwrap();
    let (text, stats) = finish_localization(md, &jobs, &Vec::new());
    assert_eq!(text, md);
    assert_eq!(stats.total, 0);
}

#[test]
fn relative_ref_inside_and_outside() {
    assert_eq!(relative_ref("/out/assets", "/out", "img-0001.jpg"), "assets/img-0001.jpg");
    assert_eq!(relative_ref("/out", "/out", "img-0001.jpg"), "img-0001.jpg");
    assert_eq!(relative_ref("/elsewhere/a", "/out", "img-0001.jpg"), "/elsewhere/a/img-0001.jpg");
}

#[test]
fn concurrency_setting() {
    assert_eq!(concurrency_from(None), 8);
    assert_eq!(concurrency_from(Some("4")), 4);
    assert_eq!(concurrency_from(Some("64")), 64);
    assert_eq!(concurrency_from(Some("65")), 8);
    assert_eq!(concurrency_from(Some("0")), 8);
    assert_eq!(concurrency_from(Some("abc")), 8);
    assert_eq!(concurrency_from(Some("+3")), 3);
    assert_eq!(concurrency_from(Some("99999999999999999999999")), 8);
}

#[test]
fn download_stats_default_is_zero() {
    let s = DownloadStats::default();
    assert_eq!((s.total, s.downloaded, s.skipped, s.failed), (0, 0, 0, 0));
}

#[test]
fn different_positions_get_different_files() {
    assert_ne!(local_filename(0, "jpg"), local_filename(1, "jpg"));
    assert_ne!(local_filename(9, "png"), local_filename(99, "png"));
    assert_ne!(local_filename(0, "jpg"), local_filename(9999, "jpg"));
}

#[test]
fn failed_downloads_leave_the_markdown_unchanged() {
    let md = "![a](https://e.com/1.png) and ![b](http://e.com/2.gif)";
    let jobs = plan_image_downloads(md).unwrap();
    let refs = vec![None, None];
    let (text, stats) = finish_localization(md, &jobs, &refs);
    assert_eq!(text, md);
    assert_eq!((stats.downloaded, stats.failed), (0, 2));
}
