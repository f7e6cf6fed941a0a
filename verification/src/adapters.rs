//! The adapters this library ships and their registration.
use vstd::prelude::*;
use crate::adapter::{
    Adapter, Article, ArticleView, ExtractError, FmView, MarkdownDoc, MarkdownDocView, Strategy,
};
use crate::strmap::{law_get_after_insert, law_insert_keeps_other_keys, map_get, map_insert};
use crate::fetcher::{FetchedPage, FetchedPageView};
use crate::generic::GenericAdapter;
use crate::router::{Registry, first_match, lemma_first_match_from_in_range};
use crate::weburl::{Url, UrlView};
use crate::weixin::WeixinAdapter;

verus! {

/// One of the shipped adapters.
pub enum BuiltinAdapter {
    Weixin(WeixinAdapter),
    Generic(GenericAdapter),
}

impl Adapter for BuiltinAdapter {
    open spec fn spec_name(&self) -> Seq<char> {
        match self {
            BuiltinAdapter::Weixin(a) => a.spec_name(),
            BuiltinAdapter::Generic(a) => a.spec_name(),
        }
    }

    open spec fn spec_matches(&self, url: UrlView) -> bool {
        match self {
            BuiltinAdapter::Weixin(a) => a.spec_matches(url),
            BuiltinAdapter::Generic(a) => a.spec_matches(url),
        }
    }

    open spec fn spec_strategy(&self, url: UrlView) -> Strategy {
        match self {
            BuiltinAdapter::Weixin(a) => a.spec_strategy(url),
            BuiltinAdapter::Generic(a) => a.spec_strategy(url),
        }
    }

    open spec fn spec_content_marker(&self) -> Option<Seq<char>> {
        match self {
            BuiltinAdapter::Weixin(a) => a.spec_content_marker(),
            BuiltinAdapter::Generic(a) => a.spec_content_marker(),
        }
    }

    open spec fn spec_extract(&self, page: FetchedPageView) -> Result<ArticleView, Seq<char>> {
        match self {
            BuiltinAdapter::Weixin(a) => a.spec_extract(page),
            BuiltinAdapter::Generic(a) => a.spec_extract(page),
        }
    }

    open spec fn spec_can_render(&self, article: ArticleView) -> bool {
        match self {
            BuiltinAdapter::Weixin(a) => a.spec_can_render(article),
            BuiltinAdapter::Generic(a) => a.spec_can_render(article),
        }
    }

    open spec fn spec_to_markdown(&self, article: ArticleView, fetched_at: Seq<char>) -> MarkdownDocView {
        match self {
            BuiltinAdapter::Weixin(a) => a.spec_to_markdown(article, fetched_at),
            BuiltinAdapter::Generic(a) => a.spec_to_markdown(article, fetched_at),
        }
    }

    fn name(&self) -> (r: &'static str) {
        match self {
            BuiltinAdapter::Weixin(a) => a.name(),
            BuiltinAdapter::Generic(a) => a.name(),
        }
    }

    fn matches(&self, url: &Url) -> (b: bool) {
        match self {
            BuiltinAdapter::Weixin(a) => a.matches(url),
            BuiltinAdapter::Generic(a) => a.matches(url),
        }
    }

    fn strategy(&self, url: &Url) -> (s: Strategy) {
        match self {
            BuiltinAdapter::Weixin(a) => a.strategy(url),
            BuiltinAdapter::Generic(a) => a.strategy(url),
        }
    }

    fn content_marker(&self) -> (m: Option<&'static str>) {
        match self {
            BuiltinAdapter::Weixin(a) => a.content_marker(),
            BuiltinAdapter::Generic(a) => a.content_marker(),
        }
    }

    fn extract(&self, page: &FetchedPage) -> (r: Result<Article, ExtractError>) {
        match self {
            BuiltinAdapter::Weixin(a) => a.extract(page),
            BuiltinAdapter::Generic(a) => a.extract(page),
        }
    }

    fn to_markdown(&self, article: &Article) -> (d: MarkdownDoc) {
        let t = crate::adapter::now_rfc3339();
        let ghost tv = t@;
        let d = match self {
            BuiltinAdapter::Weixin(a) => a.to_markdown_at(article, t),
            BuiltinAdapter::Generic(a) => a.to_markdown_at(article, t),
        };
        assert(d@ == self.spec_to_markdown(article@, tv));
        d
    }
}

/// Registers every shipped adapter: the specialised ones first, the fallback last.
pub fn register_all(registry: &mut Registry<BuiltinAdapter>)
    ensures
        final(registry)@ == old(registry)@.push(BuiltinAdapter::Weixin(WeixinAdapter)).push(
            BuiltinAdapter::Generic(GenericAdapter),
        ),
{
    registry.register(BuiltinAdapter::Weixin(WeixinAdapter::new()));
    registry.register(BuiltinAdapter::Generic(GenericAdapter::new()));
}

/// With the shipped adapters registered last, every URL has an adapter:
/// routing never reports `AdapterNotFound`.
pub proof fn law_register_all_serves_every_url(s: Seq<BuiltinAdapter>, url: UrlView)
    ensures
        first_match(
            s.push(BuiltinAdapter::Weixin(WeixinAdapter)).push(BuiltinAdapter::Generic(GenericAdapter)),
            url,
        ) is Some,
{
    let t = s.push(BuiltinAdapter::Weixin(WeixinAdapter)).push(BuiltinAdapter::Generic(GenericAdapter));
    lemma_first_match_from_in_range(t, url, 0);
    assert(t[t.len() - 1].spec_matches(url));
}

/// On a registry holding just the shipped adapters, `mp.weixin.qq.com` URLs
/// go to the WeChat adapter and all others to the fallback.
pub proof fn law_builtin_routing(url: UrlView)
    ensures
        first_match(
            seq![BuiltinAdapter::Weixin(WeixinAdapter), BuiltinAdapter::Generic(GenericAdapter)],
            url,
        ) == if url.host == Some("mp.weixin.qq.com"@) {
            Some(0int)
        } else {
            Some(1int)
        },
{
    let s = seq![BuiltinAdapter::Weixin(WeixinAdapter), BuiltinAdapter::Generic(GenericAdapter)];
    reveal_with_fuel(crate::router::first_match_from, 3);
    assert(s[0].spec_matches(url) == (url.host == Some("mp.weixin.qq.com"@)));
    assert(s[1].spec_matches(url));
}

/// A document depends on the fetch time only through its `fetched_at`
/// entry: rendering one article at two times gives the same body, the same
/// number of front matter entries, `fetched_at` holding each time, and the
/// same value under every other key.
pub proof fn law_document_differs_only_in_stamp(
    a: BuiltinAdapter,
    article: ArticleView,
    t1: Seq<char>,
    t2: Seq<char>,
)
    ensures
        ({
            let d1 = a.spec_to_markdown(article, t1);
            let d2 = a.spec_to_markdown(article, t2);
            &&& d1.body == d2.body
            &&& d1.frontmatter.len() == d2.frontmatter.len()
            &&& map_get(d1.frontmatter, "fetched_at"@) == Some(FmView::Str(t1))
            &&& forall|k: Seq<char>|
                k != "fetched_at"@ ==> #[trigger] map_get(d1.frontmatter, k) == map_get(
                    d2.frontmatter,
                    k,
                )
        }),
{
    let base = match a {
        BuiltinAdapter::Weixin(_) => crate::weixin::weixin_front_matter(article),
        BuiltinAdapter::Generic(_) => crate::generic::generic_front_matter(article),
    };
    let key = "fetched_at"@;
    law_get_after_insert(base, key, FmView::Str(t1));
    assert forall|k: Seq<char>| k != key implies #[trigger] map_get(
        map_insert(base, key, FmView::Str(t1)),
        k,
    ) == map_get(map_insert(base, key, FmView::Str(t2)), k) by {
        law_insert_keeps_other_keys(base, key, FmView::Str(t1), k);
        law_insert_keeps_other_keys(base, key, FmView::Str(t2), k);
    }
}

} // verus!
