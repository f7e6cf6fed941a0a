//! Errors of fetching and of the whole URL-to-Markdown pipeline.
use vstd::prelude::*;
use crate::fetcher::FetcherKind;

verus! {

/// Why a fetch failed.
#[derive(Debug)]
pub enum FetchError {
    Timeout { fetcher: FetcherKind },
    HttpStatus { code: u16 },
    Blocked { fetcher: FetcherKind, reason: String },
    ContentMissing { marker: String },
    CdpUnavailable { reason: String },
    Internal(String),
}

/// Why turning a URL into Markdown failed.
#[derive(Debug)]
pub enum PipelineError {
    InvalidUrl(url::ParseError),
    AdapterNotFound { host: String },
    Paywalled,
    AuthRequired { site: String, hint: String },
    Fetch(FetchError),
    ExtractFailed { adapter: String, reason: String },
    Internal(String),
}

} // verus!
