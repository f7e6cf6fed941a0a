use url_md::adapter::Adapter;
use url_md::adapters::BuiltinAdapter;
use url_md::error::PipelineError;
use url_md::generic::GenericAdapter;
use url_md::router::Registry;
use url_md::weburl::Url;
use url_md::weixin::WeixinAdapter;

fn weixin() -> BuiltinAdapter {
    BuiltinAdapter::Weixin(WeixinAdapter::new())
}

fn catch_all() -> BuiltinAdapter {
    BuiltinAdapter::Generic(GenericAdapter::new())
}

#[test]
fn empty_registry_returns_adapter_not_found() {
    let reg: Registry<BuiltinAdapter> = Registry::new();
    let url = Url::parse("https://example.com").unwrap();
    match reg.route(&url) {
        Err(PipelineError::AdapterNotFound { host }) => assert_eq!(host, "example.com"),
        Err(e) => panic!("wrong error: {e:?}"),
        Ok(_) => panic!("expected error"),
    }
    assert!(reg.is_empty());
    assert_eq!(reg.len(), 0);
}

#[test]
fn first_matching_adapter_wins() {
    let mut reg = Registry::new();
    reg.register(weixin());
    reg.register(catch_all());
    let picked = reg.route(&Url::parse("https://mp.weixin.qq.com/s/a").unwrap()).unwrap();
    assert_eq!(picked.name(), "weixin");
    let picked = reg.route(&Url::parse("https://bar.com").unwrap()).unwrap();
    assert_eq!(picked.name(), "generic");
}

#[test]
fn catchall_at_end_serves_as_fallback() {
    let mut reg = Registry::new();
    reg.register(weixin());
    reg.register(catch_all());
    let picked = reg.route(&Url::parse("https://randomsite.example").unwrap()).unwrap();
    assert_eq!(picked.name(), "generic");
}

#[test]
fn registration_order_precedence() {
    let mut reg = Registry::new();
    reg.register(catch_all());
    reg.register(weixin());
    let picked = reg.route(&Url::parse("https://mp.weixin.qq.com/s/a").unwrap()).unwrap();
    assert_eq!(picked.name(), "generic", "a catch-all registered first takes every URL");
}

#[test]
fn route_index_and_get() {
    let mut reg = Registry::new();
    reg.register(weixin());
    assert_eq!(reg.route_index(&Url::parse("https://mp.weixin.qq.com/s/a").unwrap()), Some(0));
    assert_eq!(reg.route_index(&Url::parse("https://y.com/p").unwrap()), None);
    reg.register(catch_all());
    assert_eq!(reg.route_index(&Url::parse("https://y.com/p").unwrap()), Some(1));
    assert_eq!(reg.get(1).name(), "generic");
    assert_eq!(reg.len(), 2);
    assert!(!reg.is_empty());
}

#[test]
fn url_parts() {
    let u = Url::parse("HTTPS://Example.COM/a/b?q=1").unwrap();
    assert_eq!(u.as_str(), "https://example.com/a/b?q=1");
    assert_eq!(u.host_str(), Some("example.com"));
    assert_eq!(u.path(), "/a/b");
    assert_eq!(u.to_string(), "https://example.com/a/b?q=1");
    assert!(Url::parse("example.com").is_err());
    let c = u.clone();
    assert_eq!(c.as_str(), u.as_str());
}
