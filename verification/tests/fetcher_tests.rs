use url_md::error::FetchError;
use url_md::fetcher::{
    body_failure, check_http_status, effective_user_agent, request_failure, CdpFetcher, FetchOpts,
    FetcherKind, DEFAULT_UA,
};
use url_md::weburl::Url;

#[test]
fn fetch_opts_default() {
    let o = FetchOpts::default();
    assert_eq!(o.timeout, 30);
    assert!(o.user_agent.is_none());
    assert!(o.headers.is_empty());
}

#[test]
fn user_agent_choice() {
    let o = FetchOpts::default();
    assert_eq!(effective_user_agent(&o), DEFAULT_UA);
    assert!(DEFAULT_UA.starts_with("Mozilla/5.0 (Macintosh; Intel Mac OS X 10_15_7)"));
    assert!(DEFAULT_UA.ends_with("Chrome/131.0.0.0 Safari/537.36"));
    let custom = FetchOpts { timeout: 5, user_agent: Some("bot/1".to_string()), headers: Vec::new() };
    assert_eq!(effective_user_agent(&custom), "bot/1");
}

#[test]
fn status_codes() {
    assert!(check_http_status(200).is_ok());
    assert!(check_http_status(204).is_ok());
    assert!(check_http_status(299).is_ok());
    assert!(matches!(check_http_status(199), Err(FetchError::HttpStatus { code: 199 })));
    assert!(matches!(check_http_status(301), Err(FetchError::HttpStatus { code: 301 })));
    assert!(matches!(check_http_status(404), Err(FetchError::HttpStatus { code: 404 })));
}

#[test]
fn transport_failures() {
    assert!(matches!(
        request_failure(true, "ignored".to_string()),
        FetchError::Timeout { fetcher: FetcherKind::Http }
    ));
    assert!(matches!(request_failure(false, "dns".to_string()), FetchError::Internal(m) if m == "dns"));
    assert!(matches!(body_failure("eof"), FetchError::Internal(m) if m == "body: eof"));
}

#[test]
fn cdp_fetcher_is_unavailable() {
    let f = CdpFetcher::new();
    assert_eq!(f.kind(), FetcherKind::Cdp);
    let url = Url::parse("https://mp.weixin.qq.com/mp/profile_ext").unwrap();
    match f.fetch_now(&url, &FetchOpts::default()) {
        Err(FetchError::CdpUnavailable { reason }) => {
            assert_eq!(reason, "CdpFetcher scaffold · real impl deferred")
        }
        other => panic!("unexpected {other:?}"),
    }
}
