use url_md::adapter::{Adapter, FmValue, Strategy};
use url_md::adapters::{register_all, BuiltinAdapter};
use url_md::fetcher::FetchedPage;
use url_md::generic::{pick_body, GenericAdapter};
use url_md::html::HtmlDocument;
use url_md::router::Registry;
use url_md::weburl::Url;
use url_md::weixin::{is_cdp_only_path, WeixinAdapter};

fn page(html: &str) -> FetchedPage {
    FetchedPage {
        html: html.to_string(),
        final_url: Url::parse("https://example.com/").unwrap(),
        status: 200,
        fetched_at: time::OffsetDateTime::now_utc(),
    }
}

fn weixin_page(html: &str) -> FetchedPage {
    FetchedPage {
        html: html.to_string(),
        final_url: Url::parse("https://mp.weixin.qq.com/s/abc").unwrap(),
        status: 200,
        fetched_at: time::OffsetDateTime::now_utc(),
    }
}

#[test]
fn generic_matches_any_url() {
    let a = GenericAdapter::new();
    assert!(a.matches(&Url::parse("https://anything.example").unwrap()));
    assert!(a.matches(&Url::parse("http://a.b/path?q=1").unwrap()));
}

#[test]
fn generic_strategy_is_plain_http() {
    let a = GenericAdapter::new();
    let url = Url::parse("https://x.com").unwrap();
    assert!(matches!(a.strategy(&url), Strategy::Http));
}

#[test]
fn content_marker_is_none() {
    let a = GenericAdapter::new();
    assert!(a.content_marker().is_none());
}

#[test]
fn picks_single_article() {
    let html = "<html><body><article><p>solo</p></article></body></html>";
    let (body, method) = pick_body(&HtmlDocument::parse(html), html);
    assert!(body.contains("solo"));
    assert_eq!(method, "generic/article");
}

#[test]
fn merges_multiple_articles() {
    let html = r#"
        <html><body>
          <article><h2>Post 1</h2></article>
          <article><h2>Post 2</h2></article>
          <article><h2>Post 3</h2></article>
        </body></html>"#;
    let (body, method) = pick_body(&HtmlDocument::parse(html), html);
    assert!(body.contains("Post 1") && body.contains("Post 2") && body.contains("Post 3"));
    assert_eq!(method, "generic/articles-merged-3");
}

#[test]
fn falls_back_to_main_when_no_article() {
    let html = "<html><body><main><p>main content</p></main></body></html>";
    let (body, method) = pick_body(&HtmlDocument::parse(html), html);
    assert!(body.contains("main content"));
    assert_eq!(method, "generic/main");
}

#[test]
fn falls_back_to_body_when_no_article_no_main() {
    let html = "<html><body><p>body content</p></body></html>";
    let (body, method) = pick_body(&HtmlDocument::parse(html), html);
    assert!(body.contains("body content"));
    assert_eq!(method, "generic/body");
}

#[test]
fn merged_articles_are_separated_by_rules() {
    let html = "<article>A</article><article>B</article>";
    let (body, method) = pick_body(&HtmlDocument::parse(html), html);
    assert_eq!(body, "A\n\n<hr/>\n\nB");
    assert_eq!(method, "generic/articles-merged-2");
}

#[test]
fn extract_includes_source_url_in_metadata() {
    let a = GenericAdapter::new();
    let p = page("<html><body><p>hi</p></body></html>");
    let art = a.extract(&p).unwrap();
    assert!(art.metadata.contains_key("source_url"));
    assert!(art.metadata.contains_key("extract_method"));
}

#[test]
fn generic_extract_reads_meta_tags() {
    let a = GenericAdapter::new();
    let p = page(
        r#"<html><head><title> Page </title><meta property="og:title" content="OG Title">
        <meta name="author" content="Ann"><meta property="og:image" content="https://e.com/c.png">
        </head><body><p>hi</p></body></html>"#,
    );
    let art = a.extract(&p).unwrap();
    assert_eq!(art.title, "OG Title");
    assert_eq!(art.author.as_deref(), Some("Ann"));
    assert_eq!(art.cover_url.as_ref().map(|u| u.as_str()), Some("https://e.com/c.png"));
    assert_eq!(art.metadata.get("source_url").map(|s| s.as_str()), Some("https://example.com/"));
    assert_eq!(art.metadata.get("extract_method").map(|s| s.as_str()), Some("generic/body"));
}

#[test]
fn generic_title_falls_back_to_title_tag_then_url() {
    let a = GenericAdapter::new();
    let art = a.extract(&page("<html><head><title>  Plain  </title></head><body>x</body></html>")).unwrap();
    assert_eq!(art.title, "Plain");
    let art = a.extract(&page("<html><body>x</body></html>")).unwrap();
    assert_eq!(art.title, "https://example.com/");
}

#[test]
fn generic_to_markdown_frontmatter() {
    let a = GenericAdapter::new();
    let art = a.extract(&page("<html><head><title>T</title></head><body><p>hello world</p></body></html>")).unwrap();
    let doc = a.to_markdown_at(&art, "2024-01-01T00:00:00Z".to_string());
    assert_eq!(doc.body, "hello world");
    assert!(matches!(doc.frontmatter.get("title"), Some(FmValue::Str(t)) if t == "T"));
    assert!(matches!(doc.frontmatter.get("source_adapter"), Some(FmValue::Str(t)) if t == "generic"));
    assert!(matches!(doc.frontmatter.get("extract_method"), Some(FmValue::Str(t)) if t == "generic/body"));
    assert!(matches!(doc.frontmatter.get("word_count"), Some(FmValue::Num(2))));
    assert!(matches!(doc.frontmatter.get("reading_time_minutes"), Some(FmValue::Num(1))));
    assert!(matches!(doc.frontmatter.get("fetched_at"), Some(FmValue::Str(t)) if t == "2024-01-01T00:00:00Z"));
    assert!(doc.frontmatter.get("author").is_none());
}

#[test]
fn matches_weixin_permanent_link() {
    let a = WeixinAdapter::new();
    assert!(a.matches(&Url::parse("https://mp.weixin.qq.com/s/xxx").unwrap()));
}

#[test]
fn rejects_non_weixin() {
    let a = WeixinAdapter::new();
    assert!(!a.matches(&Url::parse("https://example.com/s/xxx").unwrap()));
    assert!(!a.matches(&Url::parse("https://zhihu.com").unwrap()));
}

#[test]
fn content_marker_checks_js_content() {
    let a = WeixinAdapter::new();
    assert_eq!(a.content_marker(), Some(r#"id="js_content""#));
}

#[test]
fn strategy_is_http_first_cdp_fallback() {
    let a = WeixinAdapter::new();
    let url = Url::parse("https://mp.weixin.qq.com/s/xxx").unwrap();
    assert!(matches!(a.strategy(&url), Strategy::HttpFirstCdpFallback));
}

#[test]
fn strategy_profile_forces_cdp() {
    let a = WeixinAdapter::new();
    let url = Url::parse("https://mp.weixin.qq.com/mp/profile_ext?__biz=xx").unwrap();
    assert!(matches!(a.strategy(&url), Strategy::Cdp));
}

#[test]
fn strategy_video_account_forces_cdp() {
    let a = WeixinAdapter::new();
    let url = Url::parse("https://mp.weixin.qq.com/finder/abcdef").unwrap();
    assert!(matches!(a.strategy(&url), Strategy::Cdp));
}

#[test]
fn cdp_only_paths() {
    for p in ["/mp/profile_ext", "/mp/homepage?x", "/cgi-bin/x", "/finder/a", "/sph/b"] {
        assert!(is_cdp_only_path(p), "{p}");
    }
    assert!(!is_cdp_only_path("/s/abc"));
    assert!(!is_cdp_only_path("/"));
}

#[test]
fn weixin_extract_reads_the_page() {
    let a = WeixinAdapter::new();
    let html = r#"<html><head><meta property="og:image" content="https://e.com/cover.jpg"></head><body>
        <h1 id="activity-name">  标题  </h1><span id="js_name"> 作者 </span>
        <em id="publish_time">2024-05-01</em>
        <div id="js_content"><p>正文</p></div></body></html>"#;
    let art = a.extract(&weixin_page(html)).unwrap();
    assert_eq!(art.title, "标题");
    assert_eq!(art.author.as_deref(), Some("作者"));
    assert!(art.body_html.contains("正文"));
    assert_eq!(art.metadata.get("publish_time_raw").map(|s| s.as_str()), Some("2024-05-01"));
    assert_eq!(art.metadata.get("source_url").map(|s| s.as_str()), Some("https://mp.weixin.qq.com/s/abc"));
    let doc = a.to_markdown_at(&art, "now".to_string());
    assert_eq!(doc.body, "正文");
    assert!(matches!(doc.frontmatter.get("word_count"), Some(FmValue::Num(2))));
    assert!(matches!(doc.frontmatter.get("publish_time"), Some(FmValue::Str(t)) if t == "2024-05-01"));
    assert!(matches!(doc.frontmatter.get("cover_url"), Some(FmValue::Str(t)) if t == "https://e.com/cover.jpg"));
    assert!(matches!(doc.frontmatter.get("extract_method"), Some(FmValue::Str(t)) if t == "weixin"));
    let keys: Vec<&str> = doc.frontmatter.entries().iter().map(|(k, _)| k.as_str()).collect();
    assert_eq!(
        keys,
        vec![
            "author", "cover_url", "extract_method", "fetched_at", "publish_time",
            "reading_time_minutes", "source_adapter", "source_url", "title", "word_count"
        ]
    );
}

#[test]
fn weixin_extract_without_content_fails() {
    let a = WeixinAdapter::new();
    let err = a.extract(&weixin_page("<html><body>blocked</body></html>")).unwrap_err();
    assert_eq!(err.0, "#js_content 未找到,可能是反爬拦截页");
}

#[test]
fn register_all_orders_specialised_before_fallback() {
    let mut reg: Registry<BuiltinAdapter> = Registry::new();
    register_all(&mut reg);
    assert_eq!(reg.len(), 2);
    let w = reg.route(&Url::parse("https://mp.weixin.qq.com/s/x").unwrap()).unwrap();
    assert_eq!(w.name(), "weixin");
    let g = reg.route(&Url::parse("https://example.org/a").unwrap()).unwrap();
    assert_eq!(g.name(), "generic");
}
