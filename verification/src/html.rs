//! Queries on parsed HTML documents, answered by the `scraper` crate.
use vstd::prelude::*;

verus! {

/// The `scraper` crate's parsed HTML tree, carried as it is.
#[verifier::external_type_specification]
#[verifier::external_body]
pub struct ExHtml(scraper::Html);

/// For each element of the document `html` that the CSS selector group
/// `selector` matches, in the order `Html::select` yields them, its inner
/// HTML; `None` when the selector does not parse.
pub uninterp spec fn select_inner_html_result(html: Seq<char>, selector: Seq<char>) -> Option<Seq<Seq<char>>>;

/// For each matching element, in the order `Html::select` yields them, the
/// concatenation of its descendant text nodes; `None` when the selector does
/// not parse.
pub uninterp spec fn select_text_result(html: Seq<char>, selector: Seq<char>) -> Option<Seq<Seq<char>>>;

/// For each matching element, in the order `Html::select` yields them, the
/// value of its attribute `attr` if it has one; `None` when the selector
/// does not parse.
pub uninterp spec fn select_attr_result(html: Seq<char>, selector: Seq<char>, attr: Seq<char>) -> Option<Seq<Option<Seq<char>>>>;

/// An HTML document parsed once, together with its source text.
pub struct HtmlDocument {
    source: String,
    dom: scraper::Html,
}

impl View for HtmlDocument {
    type V = Seq<char>;

    /// The source text the document was parsed from.
    closed spec fn view(&self) -> Seq<char> {
        self.source@
    }
}

impl HtmlDocument {
    /// Parses a whole document with `scraper::Html::parse_document`
    /// (html5ever, error-tolerant, never fails). Claimed: the document's
    /// source is the input.
    #[verifier::external_body]
    pub fn parse(html: &str) -> (d: Self)
        ensures
            d@ == html@,
    {
        HtmlDocument { source: html.to_string(), dom: scraper::Html::parse_document(html) }
    }

    /// Calls `scraper::Selector::parse` and `Html::select`, and reads
    /// `ElementRef::inner_html` of every match. Claimed: the result is a
    /// function of the source text and the selector (`select_inner_html_result`).
    #[verifier::external_body]
    pub(crate) fn select_inner_html(&self, selector: &str) -> (r: Option<Vec<String>>)
        ensures
            match r {
                Some(v) => select_inner_html_result(self@, selector@) == Some(v.deep_view()),
                None => select_inner_html_result(self@, selector@) is None,
            },
    {
        let sel = scraper::Selector::parse(selector).ok()?;
        Some(self.dom.select(&sel).map(|e| e.inner_html()).collect())
    }

    /// Calls `scraper::Selector::parse` and `Html::select`, and collects
    /// `ElementRef::text` of every match into one string per element.
    /// Claimed: the result is a function of the source text and the selector
    /// (`select_text_result`).
    #[verifier::external_body]
    pub(crate) fn select_text(&self, selector: &str) -> (r: Option<Vec<String>>)
        ensures
            match r {
                Some(v) => select_text_result(self@, selector@) == Some(v.deep_view()),
                None => select_text_result(self@, selector@) is None,
            },
    {
        let sel = scraper::Selector::parse(selector).ok()?;
        Some(self.dom.select(&sel).map(|e| e.text().collect::<String>()).collect())
    }

    /// Calls `scraper::Selector::parse` and `Html::select`, and reads
    /// `Element::attr(attr)` of every match. Claimed: the result is a function
    /// of the source text, the selector and the attribute name
    /// (`select_attr_result`).
    #[verifier::external_body]
    pub(crate) fn select_attr(&self, selector: &str, attr: &str) -> (r: Option<Vec<Option<String>>>)
        ensures
            match r {
                Some(v) => select_attr_result(self@, selector@, attr@) == Some(v.deep_view()),
                None => select_attr_result(self@, selector@, attr@) is None,
            },
    {
        let sel = scraper::Selector::parse(selector).ok()?;
        Some(self.dom.select(&sel).map(|e| e.value().attr(attr).map(|a| a.to_string())).collect())
    }
}

} // verus!
