//! The fallback adapter for any URL: readability-style extraction.
//!
//! Body choice, in order: all `<article>` elements merged when there are
//! several (list pages), the single `<article>`, the first `<main>`, the first
//! `<body>`, the raw HTML.
use vstd::prelude::*;
use crate::parser::html_converts;
use crate::adapter::{
    Adapter, Article, ArticleView, ExtractError, FmValue, FmView, MarkdownDoc, MarkdownDocView,
    Strategy, body_markdown, body_markdown_spec, fm_insert_num, fm_insert_str, now_rfc3339,
};
use crate::extract::{first_text_trimmed, first_text_trimmed_spec, pick_html, pick_html_spec, pick_meta, pick_meta_spec};
use crate::fetcher::{FetchedPage, FetchedPageView};
use crate::html::{HtmlDocument, select_inner_html_result};
use crate::numfmt::{dec, push_digits};
use crate::strmap::{StrMap, map_get, map_insert};
use crate::strs::{chars_of, extend_chars, string_from, string_of};
use crate::text::{count_words, count_words_spec, reading_time_minutes, reading_time_spec};
use crate::weburl::{Url, UrlView, url_parse_result};
use crate::weixin::{clone_opt, fm_insert_opt, insert_opt};

verus! {

/// The fallback adapter.
pub struct GenericAdapter;

impl GenericAdapter {
    pub fn new() -> (a: Self) {
        GenericAdapter
    }
}

impl Default for GenericAdapter {
    fn default() -> (a: Self) {
        GenericAdapter
    }
}

/// The parts joined with `sep` between consecutive parts.
pub open spec fn join_with(parts: Seq<Seq<char>>, sep: Seq<char>) -> Seq<char>
    decreases parts.len(),
{
    if parts.len() == 0 {
        Seq::<char>::empty()
    } else if parts.len() == 1 {
        parts[0]
    } else {
        join_with(parts.drop_last(), sep) + sep + parts.last()
    }
}

/// The separator between merged articles.
pub open spec fn article_separator() -> Seq<char> {
    "\n\n<hr/>\n\n"@
}

/// The body HTML and the label of how it was found.
pub open spec fn pick_body_spec(src: Seq<char>, raw: Seq<char>) -> (Seq<char>, Seq<char>) {
    let arts = match select_inner_html_result(src, "article"@) {
        Some(v) => v,
        None => Seq::<Seq<char>>::empty(),
    };
    if arts.len() >= 2 {
        (join_with(arts, article_separator()), "generic/articles-merged-"@ + dec(arts.len()))
    } else if arts.len() == 1 {
        (arts[0], "generic/article"@)
    } else {
        match pick_html_spec(src, "main"@) {
            Some(m) => (m, "generic/main"@),
            None => match pick_html_spec(src, "body"@) {
                Some(b) => (b, "generic/body"@),
                None => (raw, "generic/raw"@),
            },
        }
    }
}

/// Chooses the body HTML of a page: several `<article>`s merged with
/// `<hr/>` between them (`generic/articles-merged-N`), one `<article>`
/// (`generic/article`), the first `<main>` (`generic/main`), the first
/// `<body>` (`generic/body`), else the raw HTML (`generic/raw`).
pub fn pick_body(doc: &HtmlDocument, raw_html: &str) -> (r: (String, String))
    ensures
        (r.0@, r.1@) == pick_body_spec(doc@, raw_html@),
{
    let arts: Vec<String> = match doc.select_inner_html("article") {
        Some(v) => v,
        None => Vec::new(),
    };
    let ghost av = arts.deep_view();
    assert(av =~= (match select_inner_html_result(doc@, "article"@) {
        Some(v) => v,
        None => Seq::<Seq<char>>::empty(),
    }));
    let n = arts.len();
    if n >= 2 {
        let sep = chars_of("\n\n<hr/>\n\n");
        let mut out: Vec<char> = Vec::new();
        for i in 0..n
            invariant
                n == arts@.len() == av.len(),
                av == arts.deep_view(),
                n >= 2,
                sep@ == article_separator(),
                i == 0 ==> out@ == Seq::<char>::empty(),
                i > 0 ==> out@ == join_with(av.take(i as int), article_separator()),
        {
            let part = chars_of(arts[i].as_str());
            assert(part@ == av[i as int]);
            let ghost before = out@;
            if i > 0 {
                extend_chars(&mut out, &sep);
            }
            extend_chars(&mut out, &part);
            proof {
                let t = av.take(i + 1);
                assert(t.drop_last() =~= av.take(i as int));
                assert(t.last() == av[i as int]);
                if i == 0 {
                    assert(t =~= seq![av[0]]);
                    assert(out@ =~= join_with(t, article_separator()));
                } else {
                    assert(out@ =~= join_with(t, article_separator()));
                }
            }
        }
        assert(av.take(n as int) =~= av);
        let mut label = chars_of("generic/articles-merged-");
        push_digits(&mut label, n as u64, 10);
        return (string_of(&out), string_of(&label));
    }
    if n == 1 {
        return (arts[0].clone(), string_from("generic/article"));
    }
    match pick_html(doc, "main") {
        Some(m) => (m, string_from("generic/main")),
        None => match pick_html(doc, "body") {
            Some(b) => (b, string_from("generic/body")),
            None => (string_from(raw_html), string_from("generic/raw")),
        },
    }
}

/// The article extracted from any page: title from `og:title`, else the
/// trimmed `<title>`, else the URL; author from `article:author`, else
/// `author`; cover from `og:image`; the body as [`pick_body`] chooses it;
/// metadata `source_url` and `extract_method`. Extraction never fails.
pub open spec fn generic_extract_spec(page: FetchedPageView) -> Result<ArticleView, Seq<char>> {
    let src = page.html;
    let title = match pick_meta_spec(src, "og:title"@) {
        Some(t) => t,
        None => match first_text_trimmed_spec(src, "title"@) {
            Some(t) => t,
            None => page.final_url.serialization,
        },
    };
    let author = match pick_meta_spec(src, "article:author"@) {
        Some(a) => Some(a),
        None => pick_meta_spec(src, "author"@),
    };
    let cover = match pick_meta_spec(src, "og:image"@) {
        Some(s) => url_parse_result(s),
        None => None,
    };
    let (body, method) = pick_body_spec(src, src);
    let m0 = Seq::<(Seq<char>, Seq<char>)>::empty();
    let metadata = map_insert(
        map_insert(m0, "source_url"@, page.final_url.serialization),
        "extract_method"@,
        method,
    );
    Ok(
        ArticleView {
            title,
            author,
            publish_time_set: false,
            body_html: body,
            cover_url: cover,
            metadata,
        },
    )
}

/// The front matter of an article extracted by the fallback adapter, before
/// its fetch time is stamped.
pub open spec fn generic_front_matter(article: ArticleView) -> Seq<(Seq<char>, FmView)> {
    let body = body_markdown_spec(article.body_html);
    let wc = count_words_spec(body);
    let rt = reading_time_spec(wc);
    let method = match map_get(article.metadata, "extract_method"@) {
        Some(m) => m,
        None => "generic"@,
    };
    let fm0 = map_insert(Seq::<(Seq<char>, FmView)>::empty(), "title"@, FmView::Str(article.title));
    let fm1 = insert_opt(fm0, "author"@, article.author);
    let fm2 = insert_opt(
        fm1,
        "cover_url"@,
        match article.cover_url {
            Some(u) => Some(u.serialization),
            None => None,
        },
    );
    let fm3 = insert_opt(fm2, "source_url"@, map_get(article.metadata, "source_url"@));
    let fm4 = map_insert(fm3, "source"@, FmView::Str("url"@));
    let fm5 = map_insert(fm4, "extract_method"@, FmView::Str(method));
    let fm6 = map_insert(fm5, "source_adapter"@, FmView::Str("generic"@));
    let fm7 = map_insert(fm6, "word_count"@, FmView::Num(wc as u64));
    let fm8 = map_insert(fm7, "reading_time_minutes"@, FmView::Num(rt as u64));
    fm8
}

/// The Markdown document for an article extracted by the fallback adapter,
/// fetched at `fetched_at`.
pub open spec fn generic_markdown_spec(article: ArticleView, fetched_at: Seq<char>) -> MarkdownDocView {
    MarkdownDocView {
        frontmatter: map_insert(generic_front_matter(article), "fetched_at"@, FmView::Str(fetched_at)),
        body: body_markdown_spec(article.body_html),
    }
}

/// A page with exactly one `<article>` uses that article as its body,
/// labelled `generic/article`, whatever `<main>` or `<body>` elements it
/// also has.
pub proof fn law_single_article_is_the_body(src: Seq<char>, raw: Seq<char>, article: Seq<char>)
    requires
        select_inner_html_result(src, "article"@) == Some(seq![article]),
    ensures
        pick_body_spec(src, raw) == (article, "generic/article"@),
{
}

/// A page with two or more `<article>` elements merges all of them, in
/// order, and labels the body with their number; `<main>` and `<body>` are
/// not looked at.
pub proof fn law_several_articles_are_merged(src: Seq<char>, raw: Seq<char>, arts: Seq<Seq<char>>)
    requires
        select_inner_html_result(src, "article"@) == Some(arts),
        arts.len() >= 2,
    ensures
        pick_body_spec(src, raw) == (
            join_with(arts, article_separator()),
            "generic/articles-merged-"@ + dec(arts.len()),
        ),
{
}

/// Without `<article>`, the first `<main>` is the body; without either, the
/// first `<body>`; without any, the raw HTML.
pub proof fn law_body_fallback_order(src: Seq<char>, raw: Seq<char>)
    requires
        match select_inner_html_result(src, "article"@) {
            Some(v) => v.len() == 0,
            None => true,
        },
    ensures
        pick_body_spec(src, raw) == match pick_html_spec(src, "main"@) {
            Some(m) => (m, "generic/main"@),
            None => match pick_html_spec(src, "body"@) {
                Some(b) => (b, "generic/body"@),
                None => (raw, "generic/raw"@),
            },
        },
{
}

impl GenericAdapter {
    /// Extracts the article from any fetched page.
    pub fn extract_article(&self, page: &FetchedPage) -> (r: Result<Article, ExtractError>)
        ensures
            match r {
                Ok(a) => generic_extract_spec(page@) == Ok::<ArticleView, Seq<char>>(a@),
                Err(e) => generic_extract_spec(page@) == Err::<ArticleView, Seq<char>>(e.0@),
            },
    {
        let doc = HtmlDocument::parse(page.html.as_str());
        let title = match pick_meta(&doc, "og:title") {
            Some(t) => t,
            None => match first_text_trimmed(&doc, "title") {
                Some(t) => t,
                None => page.final_url.to_string(),
            },
        };
        let author = match pick_meta(&doc, "article:author") {
            Some(a) => Some(a),
            None => pick_meta(&doc, "author"),
        };
        let cover_url = match pick_meta(&doc, "og:image") {
            Some(s) => match Url::parse(s.as_str()) {
                Ok(u) => Some(u),
                Err(_) => None,
            },
            None => None,
        };
        let (body_html, extract_method) = pick_body(&doc, page.html.as_str());
        let mut metadata: StrMap<String> = StrMap::new();
        metadata.insert(string_from("source_url"), page.final_url.to_string());
        metadata.insert(string_from("extract_method"), extract_method);
        let a = Article { title, author, publish_time: None, body_html, cover_url, metadata };
        assert(a@.author == generic_extract_spec(page@)->Ok_0.author);
        assert(a@.metadata == generic_extract_spec(page@)->Ok_0.metadata);
        Ok(a)
    }

    /// Renders an article with the given fetch time.
    pub fn to_markdown_at(&self, article: &Article, fetched_at: String) -> (d: MarkdownDoc)
        requires
            html_converts(article@.body_html),
        ensures
            d@ == generic_markdown_spec(article@, fetched_at@),
    {
        let body = body_markdown(article.body_html.as_str());
        let wc = count_words(body.as_str());
        let rt = reading_time_minutes(wc);
        let method = match article.metadata.get("extract_method") {
            Some(m) => m.clone(),
            None => string_from("generic"),
        };
        let mut fm: StrMap<FmValue> = StrMap::new();
        fm_insert_str(&mut fm, "title", article.title.clone());
        fm_insert_opt(&mut fm, "author", clone_opt(article.author.as_ref()));
        let cover = match &article.cover_url {
            Some(u) => Some(u.to_string()),
            None => None,
        };
        fm_insert_opt(&mut fm, "cover_url", cover);
        fm_insert_opt(&mut fm, "source_url", clone_opt(article.metadata.get("source_url")));
        fm_insert_str(&mut fm, "source", string_from("url"));
        fm_insert_str(&mut fm, "extract_method", method);
        fm_insert_str(&mut fm, "source_adapter", string_from("generic"));
        fm_insert_num(&mut fm, "word_count", wc as u64);
        fm_insert_num(&mut fm, "reading_time_minutes", rt as u64);
        fm_insert_str(&mut fm, "fetched_at", fetched_at);
        MarkdownDoc { frontmatter: fm, body }
    }
}

impl Adapter for GenericAdapter {
    open spec fn spec_name(&self) -> Seq<char> {
        "generic"@
    }

    open spec fn spec_matches(&self, url: UrlView) -> bool {
        true
    }

    open spec fn spec_strategy(&self, url: UrlView) -> Strategy {
        Strategy::Http
    }

    open spec fn spec_content_marker(&self) -> Option<Seq<char>> {
        None
    }

    open spec fn spec_extract(&self, page: FetchedPageView) -> Result<ArticleView, Seq<char>> {
        generic_extract_spec(page)
    }

    open spec fn spec_can_render(&self, article: ArticleView) -> bool {
        html_converts(article.body_html)
    }

    open spec fn spec_to_markdown(&self, article: ArticleView, fetched_at: Seq<char>) -> MarkdownDocView {
        generic_markdown_spec(article, fetched_at)
    }

    fn name(&self) -> (r: &'static str) {
        "generic"
    }

    /// Every URL.
    fn matches(&self, url: &Url) -> (b: bool) {
        true
    }

    fn strategy(&self, url: &Url) -> (s: Strategy) {
        Strategy::Http
    }

    fn content_marker(&self) -> (m: Option<&'static str>) {
        None
    }

    fn extract(&self, page: &FetchedPage) -> (r: Result<Article, ExtractError>) {
        self.extract_article(page)
    }

    fn to_markdown(&self, article: &Article) -> (d: MarkdownDoc) {
        let t = now_rfc3339();
        let ghost tv = t@;
        let d = self.to_markdown_at(article, t);
        assert(d@ == self.spec_to_markdown(article@, tv));
        d
    }
}

} // verus!
