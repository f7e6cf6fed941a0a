use url_md::adapter::{FmValue, MarkdownDoc, Strategy};
use url_md::adapters::{register_all, BuiltinAdapter};
use url_md::error::{FetchError, PipelineError};
use url_md::fetcher::{FetchedPage, FetcherKind};
use url_md::pipeline::{finish_fetch, plan_fetch, FetchOptions};
use url_md::router::Registry;
use url_md::strmap::StrMap;
use url_md::weburl::Url;

fn builtin() -> Registry<BuiltinAdapter> {
    let mut reg = Registry::new();
    register_all(&mut reg);
    reg
}

fn page_at(url: &str, html: &str) -> FetchedPage {
    FetchedPage {
        html: html.to_string(),
        final_url: Url::parse(url).unwrap(),
        status: 200,
        fetched_at: time::OffsetDateTime::now_utc(),
    }
}

#[test]
fn fetch_options_default() {
    let o = FetchOptions::default();
    assert_eq!(o.timeout, 45);
    assert!(o.force_strategy.is_none());
    assert!(o.user_agent.is_none());
}

#[test]
fn plan_rejects_invalid_url() {
    let r = plan_fetch("not a url", &FetchOptions::default(), &builtin());
    assert!(matches!(r, Err(PipelineError::InvalidUrl(_))));
}

#[test]
fn plan_without_adapters_reports_host() {
    let reg: Registry<BuiltinAdapter> = Registry::new();
    match plan_fetch("https://example.com/a", &FetchOptions::default(), &reg) {
        Err(PipelineError::AdapterNotFound { host }) => assert_eq!(host, "example.com"),
        other => panic!("unexpected: {other:?}"),
    }
}

#[test]
fn plan_routes_and_keeps_options() {
    let opts = FetchOptions { timeout: 7, force_strategy: None, user_agent: Some("UA/1".to_string()) };
    let plan = plan_fetch("https://example.com/a", &opts, &builtin()).unwrap();
    assert_eq!(plan.adapter_index, 1);
    assert_eq!(plan.strategy, Strategy::Http);
    assert_eq!(plan.opts.timeout, 7);
    assert_eq!(plan.opts.user_agent.as_deref(), Some("UA/1"));
    assert!(plan.opts.headers.is_empty());
    assert_eq!(plan.url.as_str(), "https://example.com/a");
    let w = plan_fetch("https://mp.weixin.qq.com/s/abc", &FetchOptions::default(), &builtin()).unwrap();
    assert_eq!(w.adapter_index, 0);
    assert_eq!(w.strategy, Strategy::HttpFirstCdpFallback);
}

#[test]
fn plan_refuses_browser_only_pages() {
    match plan_fetch("https://mp.weixin.qq.com/finder/x", &FetchOptions::default(), &builtin()) {
        Err(PipelineError::Internal(m)) => assert_eq!(m, "CDP fetcher not implemented in Phase 1"),
        other => panic!("unexpected: {other:?}"),
    }
    let forced = FetchOptions { timeout: 45, force_strategy: Some(Strategy::Cdp), user_agent: None };
    assert!(matches!(
        plan_fetch("https://example.com", &forced, &builtin()),
        Err(PipelineError::Internal(_))
    ));
    let http = FetchOptions { timeout: 45, force_strategy: Some(Strategy::Http), user_agent: None };
    let p = plan_fetch("https://mp.weixin.qq.com/finder/x", &http, &builtin()).unwrap();
    assert_eq!(p.strategy, Strategy::Http);
}

#[test]
fn finish_reports_missing_marker_as_blocked() {
    let reg = builtin();
    let plan = plan_fetch("https://mp.weixin.qq.com/s/abc", &FetchOptions::default(), &reg).unwrap();
    let page = page_at("https://mp.weixin.qq.com/s/abc", "<html><body>verify you are human</body></html>");
    match finish_fetch(&plan, &page, &reg) {
        Err(PipelineError::Fetch(FetchError::Blocked { fetcher, reason })) => {
            assert_eq!(fetcher, FetcherKind::Http);
            assert_eq!(reason, "content marker `id=\"js_content\"` missing");
        }
        other => panic!("unexpected: {other:?}"),
    }
}

#[test]
fn finish_reports_extract_failure() {
    let reg = builtin();
    let plan = plan_fetch("https://mp.weixin.qq.com/s/abc", &FetchOptions::default(), &reg).unwrap();
    let page = page_at("https://mp.weixin.qq.com/s/abc", "<html><body><!-- id=\"js_content\" --></body></html>");
    match finish_fetch(&plan, &page, &reg) {
        Err(PipelineError::ExtractFailed { adapter, reason }) => {
            assert_eq!(adapter, "weixin");
            assert_eq!(reason, "#js_content 未找到,可能是反爬拦截页");
        }
        other => panic!("unexpected: {other:?}"),
    }
}

#[test]
fn finish_renders_the_article() {
    let reg = builtin();
    let plan = plan_fetch("https://example.com/post", &FetchOptions::default(), &reg).unwrap();
    let page = page_at(
        "https://example.com/post",
        "<html><head><title>Post</title></head><body><article><p>one two</p></article></body></html>",
    );
    let doc = finish_fetch(&plan, &page, &reg).unwrap();
    assert_eq!(doc.body, "one two");
    assert!(matches!(doc.frontmatter.get("title"), Some(FmValue::Str(t)) if t == "Post"));
    assert!(matches!(doc.frontmatter.get("source_url"), Some(FmValue::Str(t)) if t == "https://example.com/post"));
    assert!(matches!(doc.frontmatter.get("extract_method"), Some(FmValue::Str(t)) if t == "generic/article"));
    let out = doc.render();
    assert!(out.starts_with("---\n"));
    assert!(out.ends_with("\n\none two\n"));
}

#[test]
fn empty_document_renders_as_newline() {
    let doc = MarkdownDoc { frontmatter: StrMap::new(), body: String::new() };
    assert_eq!(doc.render(), "\n");
}
