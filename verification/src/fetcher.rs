//! Fetch options, fetched pages and the parts of fetching that decide
//! rather than do I/O. The HTTP client itself lives with the application.
use vstd::prelude::*;
use crate::error::FetchError;
use crate::weburl::{Url, UrlView};

verus! {

/// The `time` crate's date-time with offset, carried as it is.
#[verifier::external_type_specification]
#[verifier::external_body]
pub struct ExOffsetDateTime(time::OffsetDateTime);

/// Which fetcher produced a page or an error.
#[derive(Debug, Clone, Copy, PartialEq, Eq, Structural)]
pub enum FetcherKind {
    Http,
    Cdp,
}

/// Options for one fetch. `timeout` is in seconds.
#[derive(Debug, Clone)]
pub struct FetchOpts {
    pub timeout: u64,
    pub user_agent: Option<String>,
    pub headers: Vec<(String, String)>,
}

impl Default for FetchOpts {
    /// Thirty seconds, the default user agent, no extra headers.
    fn default() -> (o: Self)
        ensures
            o.timeout == 30,
            o.user_agent is None,
            o.headers@.len() == 0,
    {
        FetchOpts { timeout: 30, user_agent: None, headers: Vec::new() }
    }
}

/// A fetched page: its HTML, the URL after redirects, the HTTP status and
/// when it was fetched.
#[derive(Debug)]
pub struct FetchedPage {
    pub html: String,
    pub final_url: Url,
    pub status: u16,
    pub fetched_at: time::OffsetDateTime,
}

/// The mathematical value of a [`FetchedPage`] (without its fetch time).
pub struct FetchedPageView {
    pub html: Seq<char>,
    pub final_url: UrlView,
    pub status: u16,
}

impl View for FetchedPage {
    type V = FetchedPageView;

    open spec fn view(&self) -> FetchedPageView {
        FetchedPageView { html: self.html@, final_url: self.final_url@, status: self.status }
    }
}

/// The user agent sent when the options name none.
pub const DEFAULT_UA: &'static str =
    "Mozilla/5.0 (Macintosh; Intel Mac OS X 10_15_7) AppleWebKit/537.36 (KHTML, like Gecko) Chrome/131.0.0.0 Safari/537.36";

/// The user agent a fetch sends: the one in the options, else [`DEFAULT_UA`].
pub fn effective_user_agent(opts: &FetchOpts) -> (ua: &str)
    ensures
        ua@ == match opts.user_agent {
            Some(u) => u@,
            None => DEFAULT_UA@,
        },
{
    match &opts.user_agent {
        Some(u) => u.as_str(),
        None => DEFAULT_UA,
    }
}

/// Accepts a 2xx status; any other status is `FetchError::HttpStatus`.
pub fn check_http_status(code: u16) -> (r: Result<(), FetchError>)
    ensures
        r is Ok <==> 200 <= code <= 299,
        r matches Err(e) ==> e == (FetchError::HttpStatus { code }),
{
    if 200 <= code && code <= 299 {
        Ok(())
    } else {
        Err(FetchError::HttpStatus { code })
    }
}

/// The error for an HTTP request that got no response: `Timeout` when the
/// request timed out, else `Internal` with the transport's message.
pub fn request_failure(timed_out: bool, message: String) -> (e: FetchError)
    ensures
        timed_out ==> e == (FetchError::Timeout { fetcher: FetcherKind::Http }),
        !timed_out ==> (e matches FetchError::Internal(m) && m@ == message@),
{
    if timed_out {
        FetchError::Timeout { fetcher: FetcherKind::Http }
    } else {
        FetchError::Internal(message)
    }
}

/// The error for a response whose body could not be read: `Internal` with
/// the message after `body: `.
pub fn body_failure(message: &str) -> (e: FetchError)
    ensures
        e matches FetchError::Internal(m) && m@ == "body: "@ + message@,
{
    FetchError::Internal(crate::strs::concat_str("body: ", message))
}

/// The fetcher for pages that need a browser (Chrome DevTools Protocol).
/// It is not available yet: every fetch fails with `CdpUnavailable`.
pub struct CdpFetcher {
    _placeholder: (),
}

/// Why the CDP fetcher refuses every fetch.
pub open spec fn cdp_unavailable_reason() -> Seq<char> {
    "CdpFetcher scaffold · real impl deferred"@
}

impl CdpFetcher {
    pub fn new() -> (f: Self) {
        CdpFetcher { _placeholder: () }
    }

    /// The kind of this fetcher.
    pub fn kind(&self) -> (k: FetcherKind)
        ensures
            k == FetcherKind::Cdp,
    {
        FetcherKind::Cdp
    }

    /// Fetches a page: always `CdpUnavailable`.
    pub fn fetch_now(&self, url: &Url, opts: &FetchOpts) -> (r: Result<FetchedPage, FetchError>)
        ensures
            r matches Err(FetchError::CdpUnavailable { reason }) && reason@
                == cdp_unavailable_reason(),
    {
        Err(
            FetchError::CdpUnavailable {
                reason: crate::strs::string_from(
                    "CdpFetcher scaffold · real impl deferred",
                ),
            },
        )
    }
}

impl Default for CdpFetcher {
    fn default() -> (f: Self) {
        Self::new()
    }
}

} // verus!
