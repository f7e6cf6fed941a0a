//! The adapter for WeChat official-account articles (`mp.weixin.qq.com`).
use vstd::prelude::*;
use crate::parser::html_converts;
use crate::adapter::{
    Adapter, Article, ArticleView, ExtractError, FmValue, FmView, MarkdownDoc, MarkdownDocView,
    Strategy, body_markdown, body_markdown_spec, fm_insert_num, fm_insert_str, now_rfc3339,
};
use crate::extract::{pick_html, pick_html_spec, pick_meta, pick_meta_spec, pick_text, pick_text_spec};
use crate::fetcher::{FetchedPage, FetchedPageView};
use crate::html::HtmlDocument;
use crate::strmap::{StrMap, map_get, map_insert};
use crate::strs::{chars_of, has_prefix, starts_with, str_eq, string_from};
use crate::text::{count_words, count_words_spec, reading_time_minutes, reading_time_spec};
use crate::weburl::{Url, UrlView, url_parse_result};

verus! {

/// The WeChat article adapter.
pub struct WeixinAdapter;

impl WeixinAdapter {
    pub fn new() -> (a: Self) {
        WeixinAdapter
    }
}

impl Default for WeixinAdapter {
    fn default() -> (a: Self) {
        WeixinAdapter
    }
}

/// Paths that only a browser can fetch: account home pages, channel
/// (video) pages and push history.
pub open spec fn is_cdp_only_path_spec(path: Seq<char>) -> bool {
    ||| has_prefix(path, "/mp/profile_ext"@)
    ||| has_prefix(path, "/mp/homepage"@)
    ||| has_prefix(path, "/cgi-bin/"@)
    ||| has_prefix(path, "/finder/"@)
    ||| has_prefix(path, "/sph/"@)
}

/// Permanent links (`/s/...`) and other paths go HTTP first; browser-only
/// paths go straight to the browser.
pub open spec fn weixin_strategy_spec(path: Seq<char>) -> Strategy {
    if has_prefix(path, "/s/"@) {
        Strategy::HttpFirstCdpFallback
    } else if is_cdp_only_path_spec(path) {
        Strategy::Cdp
    } else {
        Strategy::HttpFirstCdpFallback
    }
}

fn path_has_prefix(path: &[char], p: &str) -> (b: bool)
    ensures
        b == has_prefix(path@, p@),
{
    let pv = chars_of(p);
    starts_with(path, &pv)
}

/// Whether a path must be fetched with a browser.
pub fn is_cdp_only_path(path: &str) -> (b: bool)
    ensures
        b == is_cdp_only_path_spec(path@),
{
    let p = chars_of(path);
    path_has_prefix(&p, "/mp/profile_ext") || path_has_prefix(&p, "/mp/homepage")
        || path_has_prefix(&p, "/cgi-bin/") || path_has_prefix(&p, "/finder/")
        || path_has_prefix(&p, "/sph/")
}

proof fn lemma_prefix_char(s: Seq<char>, p: Seq<char>, i: int)
    requires
        has_prefix(s, p),
        0 <= i < p.len(),
    ensures
        s[i] == p[i],
{
    assert(s.subrange(0, p.len() as int)[i] == s[i]);
}

/// A WeChat URL goes straight to the browser exactly when its path is one of
/// the browser-only paths; every other path, permanent links included, is
/// tried over HTTP first.
pub proof fn law_weixin_browser_only_paths(path: Seq<char>)
    ensures
        (weixin_strategy_spec(path) == Strategy::Cdp) == is_cdp_only_path_spec(path),
        weixin_strategy_spec(path) != Strategy::Http,
{
    reveal_strlit("/s/");
    reveal_strlit("/mp/profile_ext");
    reveal_strlit("/mp/homepage");
    reveal_strlit("/cgi-bin/");
    reveal_strlit("/finder/");
    reveal_strlit("/sph/");
    if has_prefix(path, "/s/"@) {
        lemma_prefix_char(path, "/s/"@, 1);
        lemma_prefix_char(path, "/s/"@, 2);
        if has_prefix(path, "/mp/profile_ext"@) {
            lemma_prefix_char(path, "/mp/profile_ext"@, 1);
        }
        if has_prefix(path, "/mp/homepage"@) {
            lemma_prefix_char(path, "/mp/homepage"@, 1);
        }
        if has_prefix(path, "/cgi-bin/"@) {
            lemma_prefix_char(path, "/cgi-bin/"@, 1);
        }
        if has_prefix(path, "/finder/"@) {
            lemma_prefix_char(path, "/finder/"@, 1);
        }
        if has_prefix(path, "/sph/"@) {
            lemma_prefix_char(path, "/sph/"@, 2);
        }
    }
}

/// The metadata of an extracted WeChat article.
pub open spec fn weixin_metadata_spec(publish_time: Option<Seq<char>>, source_url: Seq<char>) -> Seq<(Seq<char>, Seq<char>)> {
    let m0 = Seq::<(Seq<char>, Seq<char>)>::empty();
    let m1 = match publish_time {
        Some(p) => map_insert(m0, "publish_time_raw"@, p),
        None => m0,
    };
    map_insert(m1, "source_url"@, source_url)
}

/// The article extracted from a WeChat page: title from `h1#activity-name`,
/// else `og:title`, else a placeholder; author from `#js_author_name`, else
/// `#js_name`; raw publish time from `#publish_time`; cover from `og:image`;
/// body from `#js_content`, whose absence marks a block page.
pub open spec fn weixin_extract_spec(page: FetchedPageView) -> Result<ArticleView, Seq<char>> {
    let src = page.html;
    let title = match pick_text_spec(src, "h1#activity-name"@) {
        Some(t) => t,
        None => match pick_meta_spec(src, "og:title"@) {
            Some(t) => t,
            None => "未找到标题"@,
        },
    };
    let author = match pick_text_spec(src, "#js_author_name"@) {
        Some(a) => Some(a),
        None => pick_text_spec(src, "#js_name"@),
    };
    let publish_time = pick_text_spec(src, "#publish_time"@);
    let cover = match pick_meta_spec(src, "og:image"@) {
        Some(s) => url_parse_result(s),
        None => None,
    };
    match pick_html_spec(src, "#js_content"@) {
        None => Err("#js_content 未找到,可能是反爬拦截页"@),
        Some(body) => Ok(
            ArticleView {
                title,
                author,
                publish_time_set: false,
                body_html: body,
                cover_url: cover,
                metadata: weixin_metadata_spec(publish_time, page.final_url.serialization),
            },
        ),
    }
}

/// The author of a WeChat article is the text of `#js_author_name` when
/// the page names one; the account name in `#js_name` is used only when
/// `#js_author_name` is missing or empty.
pub proof fn law_author_prefers_js_author_name(page: FetchedPageView)
    requires
        weixin_extract_spec(page) is Ok,
    ensures
        pick_text_spec(page.html, "#js_author_name"@) matches Some(a) ==> weixin_extract_spec(
            page,
        )->Ok_0.author == Some(a),
        pick_text_spec(page.html, "#js_author_name"@) is None ==> weixin_extract_spec(
            page,
        )->Ok_0.author == pick_text_spec(page.html, "#js_name"@),
{
}

/// The title of a WeChat article is the text of `h1#activity-name` when
/// present, else `og:title`; an extraction fails exactly when the page has
/// no `#js_content`.
pub proof fn law_weixin_title_and_failure(page: FetchedPageView)
    ensures
        (weixin_extract_spec(page) is Err) == (pick_html_spec(page.html, "#js_content"@) is None),
        weixin_extract_spec(page) is Ok ==> weixin_extract_spec(page)->Ok_0.title == match pick_text_spec(
            page.html,
            "h1#activity-name"@,
        ) {
            Some(t) => t,
            None => match pick_meta_spec(page.html, "og:title"@) {
                Some(t) => t,
                None => "未找到标题"@,
            },
        },
        weixin_extract_spec(page) is Ok ==> weixin_extract_spec(page)->Ok_0.body_html
            == pick_html_spec(page.html, "#js_content"@)->0,
{
}

/// `fm` with `key` set to the string `v` when `v` is present.
pub open spec fn insert_opt(fm: Seq<(Seq<char>, FmView)>, key: Seq<char>, v: Option<Seq<char>>) -> Seq<(Seq<char>, FmView)> {
    match v {
        Some(s) => map_insert(fm, key, FmView::Str(s)),
        None => fm,
    }
}

/// The front matter of a WeChat article before its fetch time is stamped:
/// `title`, `author`, `publish_time`, `cover_url`, `source_url` (each when
/// known), `extract_method` and `source_adapter` (both `weixin`),
/// `word_count` and `reading_time_minutes`.
pub open spec fn weixin_front_matter(article: ArticleView) -> Seq<(Seq<char>, FmView)> {
    let body = body_markdown_spec(article.body_html);
    let wc = count_words_spec(body);
    let rt = reading_time_spec(wc);
    let fm0 = map_insert(Seq::<(Seq<char>, FmView)>::empty(), "title"@, FmView::Str(article.title));
    let fm1 = insert_opt(fm0, "author"@, article.author);
    let fm2 = insert_opt(fm1, "publish_time"@, map_get(article.metadata, "publish_time_raw"@));
    let fm3 = insert_opt(
        fm2,
        "cover_url"@,
        match article.cover_url {
            Some(u) => Some(u.serialization),
            None => None,
        },
    );
    let fm4 = insert_opt(fm3, "source_url"@, map_get(article.metadata, "source_url"@));
    let fm5 = map_insert(fm4, "extract_method"@, FmView::Str("weixin"@));
    let fm6 = map_insert(fm5, "source_adapter"@, FmView::Str("weixin"@));
    let fm7 = map_insert(fm6, "word_count"@, FmView::Num(wc as u64));
    let fm8 = map_insert(fm7, "reading_time_minutes"@, FmView::Num(rt as u64));
    fm8
}

/// The Markdown document for a WeChat article fetched at `fetched_at`: its
/// front matter with `fetched_at` added, and the converted body.
pub open spec fn weixin_markdown_spec(article: ArticleView, fetched_at: Seq<char>) -> MarkdownDocView {
    MarkdownDocView {
        frontmatter: map_insert(weixin_front_matter(article), "fetched_at"@, FmView::Str(fetched_at)),
        body: body_markdown_spec(article.body_html),
    }
}

/// Stores `value` under `key` when present.
pub fn fm_insert_opt(fm: &mut StrMap<FmValue>, key: &str, value: Option<String>)
    ensures
        final(fm)@ == insert_opt(old(fm)@, key@, value.deep_view()),
{
    match value {
        Some(v) => fm_insert_str(fm, key, v),
        None => {},
    }
}

/// Clones an optional string.
pub fn clone_opt(v: Option<&String>) -> (r: Option<String>)
    ensures
        r.deep_view() == match v {
            Some(s) => Some(s@),
            None => None,
        },
{
    match v {
        Some(s) => Some(s.clone()),
        None => None,
    }
}

impl WeixinAdapter {
    /// Extracts the article from a fetched WeChat page.
    pub fn extract_article(&self, page: &FetchedPage) -> (r: Result<Article, ExtractError>)
        ensures
            match r {
                Ok(a) => weixin_extract_spec(page@) == Ok::<ArticleView, Seq<char>>(a@),
                Err(e) => weixin_extract_spec(page@) == Err::<ArticleView, Seq<char>>(e.0@),
            },
    {
        let doc = HtmlDocument::parse(page.html.as_str());
        let title = match pick_text(&doc, "h1#activity-name") {
            Some(t) => t,
            None => match pick_meta(&doc, "og:title") {
                Some(t) => t,
                None => string_from("未找到标题"),
            },
        };
        let author = match pick_text(&doc, "#js_author_name") {
            Some(a) => Some(a),
            None => pick_text(&doc, "#js_name"),
        };
        let publish_time = pick_text(&doc, "#publish_time");
        let cover_url = match pick_meta(&doc, "og:image") {
            Some(s) => match Url::parse(s.as_str()) {
                Ok(u) => Some(u),
                Err(_) => None,
            },
            None => None,
        };
        let body_html = match pick_html(&doc, "#js_content") {
            Some(b) => b,
            None => {
                return Err(ExtractError(string_from("#js_content 未找到,可能是反爬拦截页")));
            },
        };
        let mut metadata: StrMap<String> = StrMap::new();
        let ghost pt = publish_time.deep_view();
        match publish_time {
            Some(pt) => metadata.insert(string_from("publish_time_raw"), pt),
            None => {},
        }
        metadata.insert(string_from("source_url"), page.final_url.to_string());
        assert(metadata@ =~= weixin_metadata_spec(pt, page.final_url@.serialization));
        let a = Article { title, author, publish_time: None, body_html, cover_url, metadata };
        assert(a@.author == weixin_extract_spec(page@)->Ok_0.author);
        Ok(a)
    }

    /// Renders a WeChat article with the given fetch time.
    pub fn to_markdown_at(&self, article: &Article, fetched_at: String) -> (d: MarkdownDoc)
        requires
            html_converts(article@.body_html),
        ensures
            d@ == weixin_markdown_spec(article@, fetched_at@),
    {
        let body = body_markdown(article.body_html.as_str());
        let wc = count_words(body.as_str());
        let rt = reading_time_minutes(wc);
        let mut fm: StrMap<FmValue> = StrMap::new();
        fm_insert_str(&mut fm, "title", article.title.clone());
        fm_insert_opt(&mut fm, "author", clone_opt(article.author.as_ref()));
        fm_insert_opt(&mut fm, "publish_time", clone_opt(article.metadata.get("publish_time_raw")));
        let cover = match &article.cover_url {
            Some(u) => Some(u.to_string()),
            None => None,
        };
        fm_insert_opt(&mut fm, "cover_url", cover);
        fm_insert_opt(&mut fm, "source_url", clone_opt(article.metadata.get("source_url")));
        fm_insert_str(&mut fm, "extract_method", string_from("weixin"));
        fm_insert_str(&mut fm, "source_adapter", string_from("weixin"));
        fm_insert_num(&mut fm, "word_count", wc as u64);
        fm_insert_num(&mut fm, "reading_time_minutes", rt as u64);
        fm_insert_str(&mut fm, "fetched_at", fetched_at);
        MarkdownDoc { frontmatter: fm, body }
    }
}

impl Adapter for WeixinAdapter {
    open spec fn spec_name(&self) -> Seq<char> {
        "weixin"@
    }

    open spec fn spec_matches(&self, url: UrlView) -> bool {
        url.host == Some("mp.weixin.qq.com"@)
    }

    open spec fn spec_strategy(&self, url: UrlView) -> Strategy {
        weixin_strategy_spec(url.path)
    }

    open spec fn spec_content_marker(&self) -> Option<Seq<char>> {
        Some("id=\"js_content\""@)
    }

    open spec fn spec_extract(&self, page: FetchedPageView) -> Result<ArticleView, Seq<char>> {
        weixin_extract_spec(page)
    }

    open spec fn spec_can_render(&self, article: ArticleView) -> bool {
        html_converts(article.body_html)
    }

    open spec fn spec_to_markdown(&self, article: ArticleView, fetched_at: Seq<char>) -> MarkdownDocView {
        weixin_markdown_spec(article, fetched_at)
    }

    fn name(&self) -> (r: &'static str) {
        "weixin"
    }

    /// Only `mp.weixin.qq.com`.
    fn matches(&self, url: &Url) -> (b: bool) {
        match url.host_str() {
            Some(h) => str_eq(h, "mp.weixin.qq.com"),
            None => false,
        }
    }

    fn strategy(&self, url: &Url) -> (s: Strategy) {
        let p = chars_of(url.path());
        if path_has_prefix(&p, "/s/") {
            Strategy::HttpFirstCdpFallback
        } else if is_cdp_only_path(url.path()) {
            Strategy::Cdp
        } else {
            Strategy::HttpFirstCdpFallback
        }
    }

    /// Real article pages carry `id="js_content"`.
    fn content_marker(&self) -> (m: Option<&'static str>) {
        Some("id=\"js_content\"")
    }

    fn extract(&self, page: &FetchedPage) -> (r: Result<Article, ExtractError>) {
        self.extract_article(page)
    }

    fn to_markdown(&self, article: &Article) -> (d: MarkdownDoc) {
        let t = now_rfc3339();
        let ghost tv = t@;
        let d = self.to_markdown_at(article, t);
        assert(d@ == self.spec_to_markdown(article@, tv));
        d
    }
}

} // verus!
