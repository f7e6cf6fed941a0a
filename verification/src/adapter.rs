//! The adapter interface and the values that flow through it: extracted
//! articles and Markdown documents with YAML front matter.
use vstd::prelude::*;
use crate::fetcher::{FetchedPage, FetchedPageView};
use crate::strmap::StrMap;
use crate::strs::{chars_of, extend_chars, string_of};
use crate::weburl::{Url, UrlView};

verus! {

/// How a page is fetched.
#[derive(Debug, Clone, Copy, PartialEq, Eq, Structural)]
pub enum Strategy {
    /// Plain HTTP only.
    Http,
    /// A browser (Chrome DevTools Protocol) only: login walls, JS-heavy pages.
    Cdp,
    /// HTTP first; a browser when HTTP fails or the content marker is missing.
    HttpFirstCdpFallback,
}

/// A front-matter value: a string or a number.
#[derive(Debug)]
pub enum FmValue {
    Str(String),
    Num(u64),
}

/// The mathematical value of an [`FmValue`].
pub enum FmView {
    Str(Seq<char>),
    Num(u64),
}

impl DeepView for FmValue {
    type V = FmView;

    open spec fn deep_view(&self) -> FmView {
        match self {
            FmValue::Str(s) => FmView::Str(s@),
            FmValue::Num(n) => FmView::Num(*n),
        }
    }
}

/// An article extracted from a page.
#[derive(Debug)]
pub struct Article {
    pub title: String,
    pub author: Option<String>,
    pub publish_time: Option<time::OffsetDateTime>,
    /// The extracted body HTML (not the whole page).
    pub body_html: String,
    pub cover_url: Option<Url>,
    pub metadata: StrMap<String>,
}

/// The mathematical value of an [`Article`] (without its publish time).
pub struct ArticleView {
    pub title: Seq<char>,
    pub author: Option<Seq<char>>,
    pub publish_time_set: bool,
    pub body_html: Seq<char>,
    pub cover_url: Option<UrlView>,
    pub metadata: Seq<(Seq<char>, Seq<char>)>,
}

impl View for Article {
    type V = ArticleView;

    open spec fn view(&self) -> ArticleView {
        ArticleView {
            title: self.title@,
            author: self.author.deep_view(),
            publish_time_set: self.publish_time is Some,
            body_html: self.body_html@,
            cover_url: self.cover_url.deep_view(),
            metadata: self.metadata@,
        }
    }
}

/// A Markdown document: front matter and body.
#[derive(Debug)]
pub struct MarkdownDoc {
    pub frontmatter: StrMap<FmValue>,
    pub body: String,
}

/// The mathematical value of a [`MarkdownDoc`].
pub struct MarkdownDocView {
    pub frontmatter: Seq<(Seq<char>, FmView)>,
    pub body: Seq<char>,
}

impl View for MarkdownDoc {
    type V = MarkdownDocView;

    open spec fn view(&self) -> MarkdownDocView {
        MarkdownDocView { frontmatter: self.frontmatter@, body: self.body@ }
    }
}

/// The YAML text serde_yaml writes for a mapping from the given keys to the
/// given values, or `None` when it reports an error.
pub uninterp spec fn yaml_mapping_text(entries: Seq<(Seq<char>, FmView)>) -> Option<Seq<char>>;

/// Calls `serde_yaml::to_string` on a `BTreeMap<String, serde_yaml::Value>`
/// built one for one from the entries (strings as `Value::String`, numbers as
/// `Value::Number`). Claimed: the outcome depends only on the entries.
#[verifier::external_body]
fn yaml_of_frontmatter(fm: &StrMap<FmValue>) -> (r: Option<String>)
    ensures
        match r {
            Some(t) => yaml_mapping_text(fm@) == Some(t@),
            None => yaml_mapping_text(fm@) is None,
        },
{
    let map: std::collections::BTreeMap<String, serde_yaml::Value> = fm.entries().iter().map(
        |(k, v)|
            (k.clone(), match v {
                FmValue::Str(s) => serde_yaml::Value::String(s.clone()),
                FmValue::Num(n) => serde_yaml::Value::Number((*n).into()),
            }),
    ).collect();
    serde_yaml::to_string(&map).ok()
}

pub open spec fn dashes_line() -> Seq<char> {
    seq!['-', '-', '-', '\n']
}

/// The rendered document: `---\n<yaml>---\n\n` when there is front matter,
/// then the body, then `\n` unless the text already ends with one.
pub open spec fn render_spec(d: MarkdownDocView) -> Seq<char> {
    let head = if d.frontmatter.len() == 0 {
        Seq::<char>::empty()
    } else {
        let yaml = match yaml_mapping_text(d.frontmatter) {
            Some(t) => t,
            None => Seq::<char>::empty(),
        };
        dashes_line() + yaml + dashes_line() + seq!['\n']
    };
    let s = head + d.body;
    if s.len() > 0 && s.last() == '\n' {
        s
    } else {
        s.push('\n')
    }
}

impl MarkdownDoc {
    /// Serializes as `---\n<front matter YAML>---\n\n<body>\n`; without front
    /// matter, just the body. The result always ends with `\n`.
    pub fn render(&self) -> (out: String)
        ensures
            out@ == render_spec(self@),
    {
        let mut out: Vec<char> = Vec::new();
        let dashes = vec!['-', '-', '-', '\n'];
        assert(dashes@ =~= dashes_line());
        if !self.frontmatter.is_empty() {
            extend_chars(&mut out, &dashes);
            match yaml_of_frontmatter(&self.frontmatter) {
                Some(yaml) => {
                    let y = chars_of(yaml.as_str());
                    extend_chars(&mut out, &y);
                },
                None => {},
            }
            extend_chars(&mut out, &dashes);
            out.push('\n');
        }
        let body = chars_of(self.body.as_str());
        extend_chars(&mut out, &body);
        let n = out.len();
        if !(n > 0 && out[n - 1] == '\n') {
            out.push('\n');
        }
        proof {
            let head = if self@.frontmatter.len() == 0 {
                Seq::<char>::empty()
            } else {
                let yaml = match yaml_mapping_text(self@.frontmatter) {
                    Some(t) => t,
                    None => Seq::<char>::empty(),
                };
                dashes_line() + yaml + dashes_line() + seq!['\n']
            };
            assert(out@ =~= render_spec(self@)) by {
                let s = head + self@.body;
                if self@.frontmatter.len() == 0 {
                    assert(s =~= body@);
                }
            }
        }
        string_of(&out)
    }
}

/// A rendered document is never empty and always ends with a newline; with
/// front matter it starts with `---\n`, without it it is the body itself
/// (followed by a newline when the body lacks one).
pub proof fn law_render_shape(d: MarkdownDocView)
    ensures
        render_spec(d).len() > 0,
        render_spec(d).last() == '\n',
        d.frontmatter.len() > 0 ==> render_spec(d).subrange(0, 4) == dashes_line(),
        d.frontmatter.len() == 0 ==> render_spec(d).subrange(0, d.body.len() as int) == d.body,
{
    let head = if d.frontmatter.len() == 0 {
        Seq::<char>::empty()
    } else {
        let yaml = match yaml_mapping_text(d.frontmatter) {
            Some(t) => t,
            None => Seq::<char>::empty(),
        };
        dashes_line() + yaml + dashes_line() + seq!['\n']
    };
    let s = head + d.body;
    if d.frontmatter.len() > 0 {
        assert(s.subrange(0, 4) =~= dashes_line());
        assert(s.push('\n').subrange(0, 4) =~= dashes_line());
    } else {
        assert(s =~= d.body);
        assert(s.push('\n').subrange(0, d.body.len() as int) =~= d.body);
        assert(s.subrange(0, d.body.len() as int) =~= d.body);
    }
}

/// An adapter failed to extract an article.
#[derive(Debug)]
pub struct ExtractError(pub String);

/// A site adapter: which URLs it serves, how they are fetched, how an article
/// is extracted from a page and rendered to Markdown.
pub trait Adapter {
    spec fn spec_name(&self) -> Seq<char>;

    spec fn spec_matches(&self, url: UrlView) -> bool;

    spec fn spec_strategy(&self, url: UrlView) -> Strategy;

    spec fn spec_content_marker(&self) -> Option<Seq<char>>;

    /// The article extracted from a page, or the extraction error's message.
    spec fn spec_extract(&self, page: FetchedPageView) -> Result<ArticleView, Seq<char>>;

    /// The document rendered from an article at fetch time `fetched_at`.
    spec fn spec_to_markdown(&self, article: ArticleView, fetched_at: Seq<char>) -> MarkdownDocView;

    /// The article can be rendered: the HTML-to-Markdown conversion it
    /// needs returns.
    spec fn spec_can_render(&self, article: ArticleView) -> bool;

    fn name(&self) -> (r: &'static str)
        ensures
            r@ == self.spec_name(),
    ;

    fn matches(&self, url: &Url) -> (b: bool)
        ensures
            b == self.spec_matches(url@),
    ;

    fn strategy(&self, url: &Url) -> (s: Strategy)
        ensures
            s == self.spec_strategy(url@),
    ;

    /// A marker the HTML must contain for a plain HTTP fetch to count as real
    /// content rather than a block page.
    fn content_marker(&self) -> (m: Option<&'static str>)
        ensures
            match m {
                Some(s) => self.spec_content_marker() == Some(s@),
                None => self.spec_content_marker() is None,
            },
    ;

    fn extract(&self, page: &FetchedPage) -> (r: Result<Article, ExtractError>)
        ensures
            match r {
                Ok(a) => self.spec_extract(page@) == Ok::<ArticleView, Seq<char>>(a@),
                Err(e) => self.spec_extract(page@) == Err::<ArticleView, Seq<char>>(e.0@),
            },
    ;

    /// Renders an article; the fetch time in the front matter is the clock's.
    fn to_markdown(&self, article: &Article) -> (d: MarkdownDoc)
        requires
            self.spec_can_render(article@),
        ensures
            exists|t: Seq<char>| d@ == self.spec_to_markdown(article@, t),
    ;
}

/// Stores a string value in a front matter.
pub fn fm_insert_str(fm: &mut StrMap<FmValue>, key: &str, value: String)
    ensures
        final(fm)@ == crate::strmap::map_insert(old(fm)@, key@, FmView::Str(value@)),
{
    let ghost v = value@;
    fm.insert(crate::strs::string_from(key), FmValue::Str(value));
}

/// Stores a number in a front matter.
pub fn fm_insert_num(fm: &mut StrMap<FmValue>, key: &str, value: u64)
    ensures
        final(fm)@ == crate::strmap::map_insert(old(fm)@, key@, FmView::Num(value)),
{
    fm.insert(crate::strs::string_from(key), FmValue::Num(value));
}

/// The Markdown body made from an article's body HTML: converted, then trimmed.
pub open spec fn body_markdown_spec(body_html: Seq<char>) -> Seq<char> {
    crate::strs::trim(crate::parser::html_to_markdown_spec(body_html))
}

/// Converts an article's body HTML to Markdown and trims it.
pub fn body_markdown(body_html: &str) -> (md: String)
    requires
        crate::parser::html_converts(body_html@),
    ensures
        md@ == body_markdown_spec(body_html@),
{
    let md = crate::parser::html_to_markdown(body_html);
    crate::strs::trim_str(md.as_str())
}

/// The current UTC time in RFC 3339 form, or empty when formatting fails.
#[verifier::external_body]
pub(crate) fn now_rfc3339() -> (t: String) {
    time::OffsetDateTime::now_utc().format(&time::format_description::well_known::Rfc3339).unwrap_or_default()
}

} // verus!
