use url_md::adapter::{FmValue, MarkdownDoc};
use url_md::cmd::md::{
    assets_dir, auto_filename, auto_filename_on, error_to_exit_code, short_hash, slugify, Args as MdArgs,
    AssetsDir,
};
use url_md::cmd::serve::{check_transport, request_timeout, Args, MdRequest, UrlMdServer};
use url_md::error::{FetchError, PipelineError};
use url_md::fetcher::FetcherKind;
use url_md::strmap::StrMap;

fn doc_with_title(title: Option<&str>) -> MarkdownDoc {
    let mut fm = StrMap::new();
    if let Some(t) = title {
        fm.insert("title".to_string(), FmValue::Str(t.to_string()));
    }
    MarkdownDoc { frontmatter: fm, body: String::new() }
}

#[test]
fn exit_codes() {
    assert_eq!(error_to_exit_code(&PipelineError::InvalidUrl(url::ParseError::EmptyHost)), 30);
    assert_eq!(error_to_exit_code(&PipelineError::AdapterNotFound { host: "h".into() }), 20);
    assert_eq!(error_to_exit_code(&PipelineError::Paywalled), 12);
    assert_eq!(error_to_exit_code(&PipelineError::AuthRequired { site: "s".into(), hint: "h".into() }), 13);
    assert_eq!(
        error_to_exit_code(&PipelineError::Fetch(FetchError::Blocked { fetcher: FetcherKind::Http, reason: "r".into() })),
        11
    );
    assert_eq!(error_to_exit_code(&PipelineError::Fetch(FetchError::HttpStatus { code: 500 })), 10);
    assert_eq!(error_to_exit_code(&PipelineError::Fetch(FetchError::Timeout { fetcher: FetcherKind::Http })), 10);
    assert_eq!(error_to_exit_code(&PipelineError::ExtractFailed { adapter: "a".into(), reason: "r".into() }), 20);
    assert_eq!(error_to_exit_code(&PipelineError::Internal("x".into())), 99);
}

#[test]
fn slugify_cases() {
    assert_eq!(slugify("Hello, World!").as_deref(), Some("hello-world"));
    assert_eq!(slugify("--a--b--").as_deref(), Some("a-b"));
    assert_eq!(slugify("").as_deref(), Some("untitled"));
    assert_eq!(slugify("!!!").as_deref(), Some("untitled"));
    assert_eq!(slugify("认知 科学").as_deref(), Some("认知-科学"));
    assert_eq!(slugify("ÀB").as_deref(), Some("àb"));
}

#[test]
fn slugify_cuts_at_60_bytes() {
    let long = "a".repeat(70);
    assert_eq!(slugify(&long), Some("a".repeat(60)));
    let cjk = "中".repeat(25);
    assert_eq!(slugify(&cjk), Some("中".repeat(20)));
    let odd = format!("a{}", "中".repeat(25));
    assert_eq!(slugify(&odd), None);
}

#[test]
fn short_hash_is_djb2_hex() {
    assert_eq!(short_hash(""), "1505");
    assert_eq!(short_hash("a"), "2b606");
    assert_eq!(short_hash("https://example.com/x"), "9ba676b9a8ab3d70");
}

#[test]
fn auto_filename_parts() {
    let d = doc_with_title(Some("Hello, World!"));
    assert_eq!(
        auto_filename_on("2024-01-02", "https://www.example.com/x", &d).as_deref(),
        Some("2024-01-02-www_example_com-hello-world.md")
    );
    let none = doc_with_title(None);
    assert_eq!(
        auto_filename_on("2024-01-02", "https://example.com/x", &none).as_deref(),
        Some("2024-01-02-example_com-9ba676b9a8ab3d70.md")
    );
    assert_eq!(
        auto_filename_on("d", "not a url", &d).as_deref(),
        Some("d-unknown-hello-world.md")
    );
    let mut fm = StrMap::new();
    fm.insert("title".to_string(), FmValue::Num(3));
    let numeric = MarkdownDoc { frontmatter: fm, body: String::new() };
    let expected = format!("d-a_b-{}.md", short_hash("https://a.b"));
    assert_eq!(auto_filename_on("d", "https://a.b", &numeric), Some(expected));
}

#[test]
fn auto_filename_today_has_the_same_shape() {
    let d = doc_with_title(Some("T"));
    let name = auto_filename("https://e.com/x", &d).unwrap();
    assert!(name.ends_with("-e_com-t.md"), "{name}");
    assert_eq!(name.len(), "YYYY-MM-DD".len() + "-e_com-t.md".len());
}

#[test]
fn server_constructs_with_registry() {
    let server = UrlMdServer::new(30);
    assert_eq!(server.default_timeout(), 30);
    assert_eq!(server.registry().len(), 2);
}

#[test]
fn request_timeout_prefers_the_request() {
    let with = MdRequest { url: "https://example.com".into(), timeout_seconds: Some(60) };
    let without = MdRequest { url: "https://example.com".into(), timeout_seconds: None };
    assert_eq!(request_timeout(&with, 45), 60);
    assert_eq!(request_timeout(&without, 45), 45);
    let server = UrlMdServer::new(45);
    let o = server.fetch_options(&with);
    assert_eq!(o.timeout, 60);
    assert!(o.force_strategy.is_none() && o.user_agent.is_none());
    assert_eq!(server.fetch_options(&without).timeout, 45);
}

#[test]
fn only_mcp_transport_is_served() {
    assert_eq!(check_transport(&Args { mcp: true, timeout: 45 }), Ok(()));
    assert_eq!(check_transport(&Args { mcp: false, timeout: 45 }), Err(20));
}

fn md_args(output: Option<&str>, assets: Option<&str>, no_assets: bool) -> MdArgs {
    MdArgs {
        url: "https://e.com".to_string(),
        output: output.map(|s| s.to_string()),
        timeout: 45,
        quiet: false,
        verbose: false,
        assets: assets.map(|s| s.to_string()),
        no_assets,
    }
}

#[test]
fn images_go_beside_saved_output() {
    assert_eq!(assets_dir(&md_args(None, None, false)), AssetsDir::Skip);
    assert_eq!(assets_dir(&md_args(None, Some("img"), false)), AssetsDir::Skip);
    assert_eq!(assets_dir(&md_args(Some("out/"), None, false)), AssetsDir::BesideOutput);
    assert_eq!(assets_dir(&md_args(Some("out/"), Some("img"), false)), AssetsDir::Custom("img".to_string()));
    assert_eq!(assets_dir(&md_args(Some("out/"), Some("img"), true)), AssetsDir::Skip);
}

#[test]
fn ascii_titles_give_lowercase_slugs() {
    for t in ["Hello, World!", "Rust 1.80: What's New?", "--A--b--", "", "UPPER_case"] {
        let slug = slugify(t).unwrap();
        assert!(slug.chars().all(|c| c.is_ascii_lowercase() || c.is_ascii_digit() || c == '-'), "{slug}");
    }
}
