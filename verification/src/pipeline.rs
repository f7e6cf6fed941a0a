//! The decisions of the URL-to-Markdown pipeline.
//!
//! Converting a URL goes: parse the URL, route it to an adapter, choose the
//! fetch strategy, fetch the page (I/O, done by the caller), check the
//! adapter's content marker, extract the article, render it. The two
//! functions here take every decision before and after the fetch, so every
//! entry point (CLI, MCP server) produces the same document for the same
//! URL, options and page.
use vstd::prelude::*;
use crate::adapter::{Adapter, MarkdownDoc, Strategy};
use crate::error::{FetchError, PipelineError};
use crate::fetcher::{FetchOpts, FetchedPage, FetcherKind};
use crate::router::{Registry, first_match, host_or_empty, lemma_first_match_from_in_range};
use crate::strs::{chars_of, contains, contains_seq, string_from};
use crate::weburl::{Url, UrlView, url_parse_result};
use crate::weixin::clone_opt;

verus! {

/// Options of one conversion. `timeout` is in seconds.
#[derive(Debug, Clone)]
pub struct FetchOptions {
    pub timeout: u64,
    pub force_strategy: Option<Strategy>,
    pub user_agent: Option<String>,
}

impl Default for FetchOptions {
    /// Forty-five seconds, the adapter's own strategy, the default user agent.
    fn default() -> (o: Self)
        ensures
            o.timeout == 45,
            o.force_strategy is None,
            o.user_agent is None,
    {
        FetchOptions { timeout: 45, force_strategy: None, user_agent: None }
    }
}

/// What to fetch and how, once the URL is parsed and routed.
#[derive(Debug)]
pub struct FetchPlan {
    pub url: Url,
    pub adapter_index: usize,
    pub strategy: Strategy,
    pub opts: FetchOpts,
}

/// The strategy used for a URL: the forced one, else the adapter's.
pub open spec fn chosen_strategy<A: Adapter>(a: A, url: UrlView, options: FetchOptions) -> Strategy {
    match options.force_strategy {
        Some(s) => s,
        None => a.spec_strategy(url),
    }
}

/// The message of the error for a browser-only fetch.
pub open spec fn cdp_not_implemented() -> Seq<char> {
    "CDP fetcher not implemented in Phase 1"@
}

/// Parses and routes `url` and chooses how to fetch it. Fails with
/// `InvalidUrl` when the URL does not parse, `AdapterNotFound` when no
/// adapter matches, and `Internal` when the strategy is `Cdp`, which is not
/// available; otherwise plans a plain HTTP fetch with the options' timeout and
/// user agent.
pub fn plan_fetch<A: Adapter>(url: &str, options: &FetchOptions, registry: &Registry<A>) -> (r: Result<FetchPlan, PipelineError>)
    ensures
        r matches Err(PipelineError::InvalidUrl(_)) <==> url_parse_result(url@) is None,
        r matches Err(PipelineError::AdapterNotFound { host }) <==> (url_parse_result(url@) matches Some(
            u,
        ) && first_match(registry@, u) is None),
        r matches Err(PipelineError::AdapterNotFound { host }) ==> host@ == host_or_empty(
            url_parse_result(url@)->0,
        ),
        r matches Err(PipelineError::Internal(msg)) <==> (url_parse_result(url@) matches Some(u)
            && first_match(registry@, u) matches Some(i) && chosen_strategy(registry@[i], u, *options)
            == Strategy::Cdp),
        r matches Err(PipelineError::Internal(msg)) ==> msg@ == cdp_not_implemented(),
        r is Err ==> (r matches Err(PipelineError::InvalidUrl(_)) || r matches Err(
            PipelineError::AdapterNotFound { .. },
        ) || r matches Err(PipelineError::Internal(_))),
        r matches Ok(p) ==> {
            &&& url_parse_result(url@) == Some(p.url@)
            &&& first_match(registry@, p.url@) == Some(p.adapter_index as int)
            &&& p.strategy == chosen_strategy(registry@[p.adapter_index as int], p.url@, *options)
            &&& p.strategy != Strategy::Cdp
            &&& p.opts.timeout == options.timeout
            &&& p.opts.user_agent.deep_view() == options.user_agent.deep_view()
            &&& p.opts.headers@.len() == 0
        },
{
    let parsed = match Url::parse(url) {
        Ok(u) => u,
        Err(e) => {
            return Err(PipelineError::InvalidUrl(e));
        },
    };
    let index = match registry.route_index(&parsed) {
        Some(i) => i,
        None => {
            let host = match parsed.host_str() {
                Some(h) => string_from(h),
                None => String::new(),
            };
            return Err(PipelineError::AdapterNotFound { host });
        },
    };
    proof {
        lemma_first_match_from_in_range(registry@, parsed@, 0);
    }
    let adapter = registry.get(index);
    let strategy = match options.force_strategy {
        Some(s) => s,
        None => adapter.strategy(&parsed),
    };
    match strategy {
        Strategy::Cdp => Err(PipelineError::Internal(string_from("CDP fetcher not implemented in Phase 1"))),
        _ => {
            let opts = FetchOpts {
                timeout: options.timeout,
                user_agent: clone_opt(options.user_agent.as_ref()),
                headers: Vec::new(),
            };
            Ok(FetchPlan { url: parsed, adapter_index: index, strategy, opts })
        },
    }
}

/// The reason given when a page lacks the adapter's content marker.
pub open spec fn marker_missing_reason(marker: Seq<char>) -> Seq<char> {
    "content marker `"@ + marker + "` missing"@
}

/// Turns the page fetched for `plan` into a document with the planned
/// adapter: `Fetch(Blocked)` when the adapter has a content marker the HTML
/// lacks; `ExtractFailed` with the adapter's name and the message when
/// extraction fails; otherwise the adapter's rendering of the article. For
/// a page that passes the marker check, the extracted article must be one
/// the adapter can render (its HTML-to-Markdown conversion returns); a
/// blocked page is refused whatever it holds.
pub fn finish_fetch<A: Adapter>(plan: &FetchPlan, page: &FetchedPage, registry: &Registry<A>) -> (r: Result<MarkdownDoc, PipelineError>)
    requires
        plan.adapter_index < registry@.len(),
        !(registry@[plan.adapter_index as int].spec_content_marker() matches Some(m)
            && !contains_seq(page.html@, m)) ==> (registry@[plan.adapter_index as int].spec_extract(
            page@,
        ) matches Ok(a) ==> registry@[plan.adapter_index as int].spec_can_render(a)),
    ensures
        ({
            let a = registry@[plan.adapter_index as int];
            let blocked = a.spec_content_marker() matches Some(m) && !contains_seq(page.html@, m);
            &&& (r matches Err(PipelineError::Fetch(FetchError::Blocked { fetcher, reason }))
                <==> blocked)
            &&& r matches Err(PipelineError::Fetch(FetchError::Blocked { fetcher, reason })) ==> (
            fetcher == FetcherKind::Http && reason@ == marker_missing_reason(
                a.spec_content_marker()->0,
            ))
            &&& (r matches Err(PipelineError::ExtractFailed { adapter, reason }) <==> (!blocked
                && a.spec_extract(page@) is Err))
            &&& r matches Err(PipelineError::ExtractFailed { adapter, reason }) ==> (adapter@
                == a.spec_name() && a.spec_extract(page@) == Err::<
                crate::adapter::ArticleView,
                Seq<char>,
            >(reason@))
            &&& r is Err ==> (r matches Err(PipelineError::Fetch(FetchError::Blocked { .. }))
                || r matches Err(PipelineError::ExtractFailed { .. }))
            &&& r matches Ok(d) ==> !blocked
            &&& r matches Ok(d) ==> a.spec_extract(page@) is Ok
            &&& r matches Ok(d) ==> exists|t: Seq<char>|
                d@ == a.spec_to_markdown(a.spec_extract(page@)->Ok_0, t)
        }),
{
    let adapter = registry.get(plan.adapter_index);
    match adapter.content_marker() {
        Some(marker) => {
            let html = chars_of(page.html.as_str());
            let m = chars_of(marker);
            if !contains(&html, &m) {
                let mut reason = string_from("content marker `");
                reason.append(marker);
                reason.append("` missing");
                return Err(
                    PipelineError::Fetch(FetchError::Blocked { fetcher: FetcherKind::Http, reason }),
                );
            }
        },
        None => {},
    }
    match adapter.extract(page) {
        Err(e) => Err(
            PipelineError::ExtractFailed { adapter: string_from(adapter.name()), reason: e.0 },
        ),
        Ok(article) => {
            let d = adapter.to_markdown(&article);
            let ghost t = choose|t: Seq<char>| d@ == adapter.spec_to_markdown(article@, t);
            assert(d@ == adapter.spec_to_markdown(adapter.spec_extract(page@)->Ok_0, t));
            Ok(d)
        },
    }
}

} // verus!
