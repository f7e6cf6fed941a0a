//! Parsed URLs: the parts the library reads, produced by the `url` crate.
use vstd::prelude::*;
use crate::strs::string_from;

verus! {

/// The `url` crate's parse error, carried as it is.
#[verifier::external_type_specification]
#[verifier::external_body]
pub struct ExUrlParseError(url::ParseError);

/// A URL as the `url` crate parsed it: its serialization (`Url::as_str`,
/// also its `to_string`), its host (`Url::host_str`) and its path (`Url::path`).
#[derive(Debug)]
pub struct Url {
    serialization: String,
    host: Option<String>,
    path: String,
}

/// The mathematical value of a [`Url`].
pub struct UrlView {
    pub serialization: Seq<char>,
    pub host: Option<Seq<char>>,
    pub path: Seq<char>,
}

impl View for Url {
    type V = UrlView;

    closed spec fn view(&self) -> UrlView {
        UrlView {
            serialization: self.serialization@,
            host: match self.host {
                Some(h) => Some(h@),
                None => None,
            },
            path: self.path@,
        }
    }
}

/// What `url::Url::parse` gives for an input text: `None` when it rejects
/// the text, else the serialization, host and path of the parsed URL.
pub uninterp spec fn url_parse_result(input: Seq<char>) -> Option<UrlView>;

/// Calls `url::Url::parse` (WHATWG URL parsing) and reads `as_str`,
/// `host_str` and `path` of the result. Claimed: success and the three parts
/// depend on the input text alone (`url_parse_result`).
#[verifier::external_body]
fn url_crate_parse(input: &str) -> (r: Result<Url, url::ParseError>)
    ensures
        match r {
            Ok(u) => url_parse_result(input@) == Some(u@),
            Err(_) => url_parse_result(input@) is None,
        },
{
    match url::Url::parse(input) {
        Ok(u) => Ok(
            Url {
                serialization: u.as_str().to_string(),
                host: u.host_str().map(|h| h.to_string()),
                path: u.path().to_string(),
            },
        ),
        Err(e) => Err(e),
    }
}

impl Clone for Url {
    fn clone(&self) -> (r: Self)
        ensures
            r@ == self@,
    {
        Url {
            serialization: self.serialization.clone(),
            host: match &self.host {
                Some(h) => Some(h.clone()),
                None => None,
            },
            path: self.path.clone(),
        }
    }
}

impl DeepView for Url {
    type V = UrlView;

    open spec fn deep_view(&self) -> UrlView {
        self@
    }
}

impl Url {
    /// Parses an absolute URL with the `url` crate.
    pub fn parse(input: &str) -> (r: Result<Url, url::ParseError>)
        ensures
            match r {
                Ok(u) => url_parse_result(input@) == Some(u@),
                Err(_) => url_parse_result(input@) is None,
            },
    {
        url_crate_parse(input)
    }

    /// The serialization of the URL.
    pub fn as_str(&self) -> (s: &str)
        ensures
            s@ == self@.serialization,
    {
        self.serialization.as_str()
    }

    /// The serialization of the URL as an owned string.
    pub fn to_string(&self) -> (s: String)
        ensures
            s@ == self@.serialization,
    {
        string_from(self.serialization.as_str())
    }

    /// The host, if the URL has one.
    pub fn host_str(&self) -> (h: Option<&str>)
        ensures
            match h {
                Some(s) => self@.host == Some(s@),
                None => self@.host is None,
            },
    {
        match &self.host {
            Some(h) => Some(h.as_str()),
            None => None,
        }
    }

    /// The path.
    pub fn path(&self) -> (p: &str)
        ensures
            p@ == self@.path,
    {
        self.path.as_str()
    }
}

} // verus!
