//! Image localisation: the Markdown side of downloading every external image
//! of an article and pointing the Markdown at the local copies.
//!
//! An image reference is `![alt](URL)` where `alt` holds no `]` and `URL`
//! starts with `http://` or `https://` and holds no `)` and no whitespace.
//! References are taken in order of appearance, each URL once. The network
//! and disk work happen outside the library; this module plans the files
//! (`img-0001.jpg`, `img-0002.png`, ...) and rewrites the Markdown once the
//! downloads are done.
use vstd::prelude::*;
use crate::numfmt::{dec, dec_value, lemma_dec_value_of_dec, lemma_dec_value_zero_pad, lemma_zero_pad_dec_digits, padded_decimal, zero_pad};
use crate::parser::{first_from, lemma_first_from_bounds, lemma_first_from_is};
use crate::strs::{
    char_count_at_bytes, char_index_at_bytes, chars_eq, chars_of, extend_chars, has_prefix,
    is_ascii_alnum, is_ascii_alphanumeric, is_whitespace, is_ws, lemma_char_count_at_bytes, occurs_at,
    occurs_at_exec, slice_chars, str_to_lowercase, string_of, to_lowercase_result, utf8_bytes_len,
    utf8_prefix_bytes,
};

verus! {

/// Counts from one image download round.
#[derive(Debug, Clone, Copy)]
pub struct DownloadStats {
    pub total: usize,
    pub downloaded: usize,
    pub skipped: usize,
    pub failed: usize,
}

impl Default for DownloadStats {
    fn default() -> (s: Self)
        ensures
            s.total == 0 && s.downloaded == 0 && s.skipped == 0 && s.failed == 0,
    {
        DownloadStats { total: 0, downloaded: 0, skipped: 0, failed: 0 }
    }
}

pub open spec fn https_prefix() -> Seq<char> {
    seq!['h', 't', 't', 'p', 's', ':', '/', '/']
}

pub open spec fn http_prefix() -> Seq<char> {
    seq!['h', 't', 't', 'p', ':', '/', '/']
}

/// First index at or after `from` holding `)` or whitespace, or `s.len()`.
pub open spec fn url_stop_from(s: Seq<char>, from: int) -> int
    decreases s.len() - from,
{
    if from < 0 || from >= s.len() {
        s.len() as int
    } else if s[from] == ')' || is_ws(s[from]) {
        from
    } else {
        url_stop_from(s, from + 1)
    }
}

/// The image reference `![alt](URL)` starting at `i`, if one does:
/// `(alt_start, alt_end, url_start, url_end, end)`.
pub open spec fn md_img_match_at(s: Seq<char>, i: int) -> Option<(int, int, int, int, int)> {
    if 0 <= i && i + 1 < s.len() && s[i] == '!' && s[i + 1] == '[' {
        let a = first_from(s, i + 2, ']');
        if a + 1 < s.len() && s[a + 1] == '(' {
            let u = if occurs_at(s, https_prefix(), a + 2) {
                a + 10
            } else if occurs_at(s, http_prefix(), a + 2) {
                a + 9
            } else {
                -1
            };
            if u >= 0 {
                let e = url_stop_from(s, u);
                if u < e < s.len() && s[e] == ')' {
                    Some((i + 2, a, a + 2, e, e + 1))
                } else {
                    None
                }
            } else {
                None
            }
        } else {
            None
        }
    } else {
        None
    }
}

pub proof fn lemma_url_stop_bounds(s: Seq<char>, from: int)
    requires
        0 <= from,
    ensures
        (from <= url_stop_from(s, from) <= s.len()) || url_stop_from(s, from) == s.len(),
        forall|k: int| from <= k < url_stop_from(s, from) ==> s[k] != ')' && !is_ws(s[k]),
    decreases s.len() - from,
{
    if from < s.len() && !(s[from] == ')' || is_ws(s[from])) {
        lemma_url_stop_bounds(s, from + 1);
    }
}

pub proof fn lemma_md_img_match_bounds(s: Seq<char>, i: int)
    requires
        md_img_match_at(s, i) is Some,
    ensures
        ({
            let (as_, ae, us, ue, e) = md_img_match_at(s, i)->0;
            &&& 0 <= i < as_ <= ae < us < ue < e <= s.len()
        }),
{
    lemma_first_from_bounds(s, i + 2, ']');
}

/// Every image reference in `s` from `pos` on, as `(alt, url)` pairs in order.
pub open spec fn md_images_from(s: Seq<char>, pos: int) -> Seq<(Seq<char>, Seq<char>)>
    decreases s.len() - pos,
{
    if pos < 0 || pos >= s.len() {
        seq![]
    } else {
        match md_img_match_at(s, pos) {
            Some((as_, ae, us, ue, e)) => {
                proof {
                    lemma_md_img_match_bounds(s, pos);
                }
                seq![(s.subrange(as_, ae), s.subrange(us, ue))] + md_images_from(s, e)
            },
            None => md_images_from(s, pos + 1),
        }
    }
}

/// Whether `url` is the URL of one of `items`.
pub open spec fn has_url(items: Seq<(Seq<char>, Seq<char>)>, url: Seq<char>) -> bool {
    exists|j: int| 0 <= j < items.len() && (#[trigger] items[j]).1 == url
}

/// `items` with every pair whose URL already came earlier removed.
pub open spec fn dedupe_by_url(items: Seq<(Seq<char>, Seq<char>)>) -> Seq<(Seq<char>, Seq<char>)>
    decreases items.len(),
{
    if items.len() == 0 {
        seq![]
    } else {
        let d = dedupe_by_url(items.drop_last());
        if has_url(d, items.last().1) {
            d
        } else {
            d.push(items.last())
        }
    }
}

/// The `(alt, url)` pairs of all image references of a Markdown text, in
/// order of appearance, each URL once.
pub open spec fn extract_image_urls_spec(markdown: Seq<char>) -> Seq<(Seq<char>, Seq<char>)> {
    dedupe_by_url(md_images_from(markdown, 0))
}

fn prefix_chars_https() -> (v: Vec<char>)
    ensures
        v@ == https_prefix(),
{
    let v = vec!['h', 't', 't', 'p', 's', ':', '/', '/'];
    assert(v@ =~= https_prefix());
    v
}

fn prefix_chars_http() -> (v: Vec<char>)
    ensures
        v@ == http_prefix(),
{
    let v = vec!['h', 't', 't', 'p', ':', '/', '/'];
    assert(v@ =~= http_prefix());
    v
}

fn md_img_match_at_exec(s: &[char], i: usize, https: &[char], http: &[char]) -> (r: Option<
    (usize, usize, usize, usize, usize),
>)
    requires
        i < s@.len(),
        https@ == https_prefix(),
        http@ == http_prefix(),
    ensures
        match r {
            Some((a, b, c, d, e)) => md_img_match_at(s@, i as int) == Some(
                (a as int, b as int, c as int, d as int, e as int),
            ),
            None => md_img_match_at(s@, i as int) is None,
        },
{
    let n = s.len();
    if !(i + 1 < n && s[i] == '!' && s[i + 1] == '[') {
        return None;
    }
    let a = crate::parser::find_first_from(s, i + 2, ']');
    if !(a < n && a + 1 < n && s[a + 1] == '(') {
        return None;
    }
    let u = if occurs_at_exec(s, https, a + 2) {
        a + 10
    } else if occurs_at_exec(s, http, a + 2) {
        a + 9
    } else {
        return None;
    };
    let mut e = u;
    while e < n && !(s[e] == ')' || is_whitespace(s[e]))
        invariant
            u <= e <= n == s@.len(),
            forall|k: int| u <= k < e ==> !(s@[k] == ')' || is_ws(s@[k])),
        decreases n - e,
    {
        e = e + 1;
    }
    proof {
        lemma_url_stop_is(s@, u as int, e as int);
    }
    if u < e && e < n && s[e] == ')' {
        Some((i + 2, a, a + 2, e, e + 1))
    } else {
        None
    }
}

proof fn lemma_url_stop_is(s: Seq<char>, from: int, k: int)
    requires
        0 <= from <= k <= s.len(),
        forall|j: int| from <= j < k ==> !(s[j] == ')' || is_ws(s[j])),
        k == s.len() || s[k] == ')' || is_ws(s[k]),
    ensures
        url_stop_from(s, from) == k,
    decreases k - from,
{
    if from < k {
        lemma_url_stop_is(s, from + 1, k);
    }
}

/// Whether some pair of `items` has URL `url`.
fn contains_url(items: &Vec<(String, String)>, url: &String) -> (b: bool)
    ensures
        b == has_url(items.deep_view(), url@),
{
    let n = items.len();
    for j in 0..n
        invariant
            n == items.deep_view().len(),
            forall|k: int| 0 <= k < j ==> (#[trigger] items.deep_view()[k]).1 != url@,
    {
        assert(items.deep_view()[j as int].1 == items@[j as int].1@);
        if items[j].1 == *url {
            return true;
        }
    }
    false
}

/// The `(alt, url)` pairs of all `![alt](http(s)://...)` image references,
/// in order of appearance, each URL only at its first appearance.
pub fn extract_image_urls(markdown: &str) -> (out: Vec<(String, String)>)
    ensures
        out.deep_view() == extract_image_urls_spec(markdown@),
{
    let s = chars_of(markdown);
    let https = prefix_chars_https();
    let http = prefix_chars_http();
    let n = s.len();
    let mut out: Vec<(String, String)> = Vec::new();
    let mut pos: usize = 0;
    let ghost mut found: Seq<(Seq<char>, Seq<char>)> = seq![];
    while pos < n
        invariant
            n == s@.len(),
            pos <= n,
            https@ == https_prefix(),
            http@ == http_prefix(),
            found + md_images_from(s@, pos as int) == md_images_from(s@, 0),
            out.deep_view() == dedupe_by_url(found),
        decreases n - pos,
    {
        match md_img_match_at_exec(&s, pos, &https, &http) {
            Some((as_, ae, us, ue, e)) => {
                proof {
                    lemma_md_img_match_bounds(s@, pos as int);
                }
                let alt = string_of(&slice_chars(&s, as_, ae));
                let url = string_of(&slice_chars(&s, us, ue));
                let ghost item = (s@.subrange(as_ as int, ae as int), s@.subrange(
                    us as int,
                    ue as int,
                ));
                proof {
                    assert(found + md_images_from(s@, pos as int) =~= found.push(item)
                        + md_images_from(s@, e as int));
                    assert(found.push(item).drop_last() =~= found);
                }
                if !contains_url(&out, &url) {
                    out.push((alt, url));
                    assert(out.deep_view() =~= dedupe_by_url(found).push(item));
                }
                proof {
                    found = found.push(item);
                }
                pos = e;
            },
            None => {
                pos = pos + 1;
            },
        }
    }
    assert(found + md_images_from(s@, pos as int) =~= found);
    out
}

/// Extracted URLs are pairwise distinct.
pub proof fn law_dedupe_distinct(items: Seq<(Seq<char>, Seq<char>)>)
    ensures
        forall|i: int, j: int|
            0 <= i < j < dedupe_by_url(items).len() ==> (#[trigger] dedupe_by_url(items)[i]).1
                != (#[trigger] dedupe_by_url(items)[j]).1,
    decreases items.len(),
{
    if items.len() > 0 {
        let prev = items.drop_last();
        law_dedupe_distinct(prev);
        let d = dedupe_by_url(prev);
        let r = dedupe_by_url(items);
        if !has_url(d, items.last().1) {
            assert forall|i: int, j: int| 0 <= i < j < r.len() implies (#[trigger] r[i]).1 != (
            #[trigger] r[j]).1 by {
                if j == d.len() {
                    assert(r[i] == d[i]);
                    assert(r[j] == items.last());
                } else {
                    assert(r[i] == d[i]);
                    assert(r[j] == d[j]);
                }
            }
        }
    }
}

/// Every URL of the input is kept, and nothing else is added.
pub proof fn law_dedupe_keeps_every_url(items: Seq<(Seq<char>, Seq<char>)>, url: Seq<char>)
    ensures
        has_url(dedupe_by_url(items), url) == has_url(items, url),
    decreases items.len(),
{
    if items.len() > 0 {
        let prev = items.drop_last();
        law_dedupe_keeps_every_url(prev, url);
        let d = dedupe_by_url(prev);
        if has_url(items, url) && !has_url(prev, url) {
            assert(items.last().1 == url) by {
                let j = choose|j: int| 0 <= j < items.len() && (#[trigger] items[j]).1 == url;
                if j < items.len() - 1 {
                    assert(prev[j] == items[j]);
                }
            }
        }
        if has_url(prev, url) {
            let j = choose|j: int| 0 <= j < prev.len() && (#[trigger] prev[j]).1 == url;
            assert(items[j] == prev[j]);
        }
        if has_url(dedupe_by_url(items), url) && !has_url(d, url) {
            let j = choose|j: int|
                0 <= j < dedupe_by_url(items).len() && (#[trigger] dedupe_by_url(items)[j]).1
                    == url;
            assert(j == d.len());
        }
        if has_url(d, url) && !has_url(d, items.last().1) {
            let j = choose|j: int| 0 <= j < d.len() && (#[trigger] d[j]).1 == url;
            assert(d.push(items.last())[j] == d[j]);
        }
        if !has_url(d, items.last().1) && items.last().1 == url {
            assert(d.push(items.last())[d.len() as int].1 == url);
        }
    }
}

/// Every extracted URL starts with `http://` or `https://`.
pub proof fn law_image_urls_are_http(s: Seq<char>, pos: int)
    requires
        0 <= pos,
    ensures
        forall|k: int|
            0 <= k < md_images_from(s, pos).len() ==> has_prefix(
                (#[trigger] md_images_from(s, pos)[k]).1,
                http_prefix(),
            ) || has_prefix(md_images_from(s, pos)[k].1, https_prefix()),
    decreases s.len() - pos,
{
    if 0 <= pos < s.len() {
        match md_img_match_at(s, pos) {
            Some((as_, ae, us, ue, e)) => {
                lemma_md_img_match_bounds(s, pos);
                law_image_urls_are_http(s, e);
                let url = s.subrange(us, ue);
                let rest = md_images_from(s, e);
                let all = md_images_from(s, pos);
                assert(all == seq![(s.subrange(as_, ae), url)] + rest);
                let a = first_from(s, pos + 2, ']');
                assert(us == a + 2);
                if occurs_at(s, https_prefix(), us) {
                    assert(url.subrange(0, 8) =~= s.subrange(us, us + 8));
                    assert(has_prefix(url, https_prefix()));
                } else {
                    assert(occurs_at(s, http_prefix(), us));
                    assert(url.subrange(0, 7) =~= s.subrange(us, us + 7));
                    assert(has_prefix(url, http_prefix()));
                }
                assert forall|k: int| 0 <= k < all.len() implies has_prefix(
                    (#[trigger] all[k]).1,
                    http_prefix(),
                ) || has_prefix(all[k].1, https_prefix()) by {
                    if k > 0 {
                        assert(all[k] == rest[k - 1]);
                    } else {
                        assert(all[k].1 == url);
                    }
                }
            },
            None => {
                law_image_urls_are_http(s, pos + 1);
                assert(md_images_from(s, pos) == md_images_from(s, pos + 1));
            },
        }
    }
}

/// The text of one image reference `![alt](url)`.
pub open spec fn image_reference(alt: Seq<char>, url: Seq<char>) -> Seq<char> {
    seq!['!', '['] + alt + seq![']', '('] + url + seq![')']
}

/// One image reference is recognised whole, whatever its URL holds besides
/// `)` and whitespace: for every `alt` without `]` and every `url` that
/// starts with `http://` or `https://` (followed by at least one more
/// character) and holds no `)` and no whitespace, the references of
/// `![alt](url)` are exactly `(alt, url)`.
pub proof fn law_single_image_reference(alt: Seq<char>, url: Seq<char>)
    requires
        forall|k: int| 0 <= k < alt.len() ==> alt[k] != ']',
        (has_prefix(url, https_prefix()) && url.len() > 8) || (has_prefix(url, http_prefix())
            && url.len() > 7),
        forall|k: int| 0 <= k < url.len() ==> url[k] != ')' && !is_ws(url[k]),
    ensures
        md_images_from(image_reference(alt, url), 0) == seq![(alt, url)],
        extract_image_urls_spec(image_reference(alt, url)) == seq![(alt, url)],
{
    let s = image_reference(alt, url);
    let a: int = alt.len() as int + 2;
    let us: int = a + 2;
    let e: int = us + url.len();
    assert(s.len() == e + 1);
    assert(s[0] == '!' && s[1] == '[');
    assert forall|k: int| 2 <= k < a implies s[k] != ']' by {
        assert(s[k] == alt[k - 2]);
    }
    assert(s[a] == ']');
    lemma_first_from_is(s, 2, ']', a);
    assert(s[a + 1] == '(');
    assert forall|k: int| us <= k < e implies s[k] == url[k - us] by {}
    assert(s[e] == ')');
    assert forall|j: int| us <= j < e implies !(s[j] == ')' || is_ws(s[j])) by {
        assert(s[j] == url[j - us]);
    }
    let u: int = if has_prefix(url, https_prefix()) && url.len() > 8 {
        assert(s.subrange(us, us + 8) =~= url.subrange(0, 8));
        assert(occurs_at(s, https_prefix(), us));
        us + 8
    } else {
        assert(s.subrange(us, us + 7) =~= url.subrange(0, 7));
        assert(occurs_at(s, http_prefix(), us));
        assert(url[4] == ':');
        if occurs_at(s, https_prefix(), us) {
            assert(s.subrange(us, us + 8)[4] == 's');
            assert(s[us + 4] == url[4]);
        }
        assert(!occurs_at(s, https_prefix(), us));
        us + 7
    };
    assert forall|j: int| u <= j < e implies !(s[j] == ')' || is_ws(s[j])) by {
        assert(s[j] == url[j - us]);
    }
    lemma_url_stop_is(s, u, e);
    assert(md_img_match_at(s, 0) == Some((2int, a, us, e, e + 1)));
    assert(s.subrange(2, a) =~= alt);
    assert(s.subrange(us, e) =~= url);
    assert(md_images_from(s, e + 1) == Seq::<(Seq<char>, Seq<char>)>::empty());
    assert(md_images_from(s, 0) =~= seq![(alt, url)]);
    let one = seq![(alt, url)];
    assert(one.drop_last() =~= Seq::<(Seq<char>, Seq<char>)>::empty());
    assert(dedupe_by_url(one.drop_last()) == Seq::<(Seq<char>, Seq<char>)>::empty());
    assert(!has_url(Seq::<(Seq<char>, Seq<char>)>::empty(), url));
    assert(dedupe_by_url(one) =~= one);
}

// ---------------------------------------------------------------------------
// File extensions
// ---------------------------------------------------------------------------

pub open spec fn wx_fmt_key() -> Seq<char> {
    seq!['w', 'x', '_', 'f', 'm', 't', '=']
}

/// The first occurrence of `p` in `s` at or after `from`.
pub open spec fn find_from(s: Seq<char>, p: Seq<char>, from: int) -> Option<int>
    decreases s.len() + 1 - from,
{
    if from < 0 || from + p.len() > s.len() {
        None
    } else if occurs_at(s, p, from) {
        Some(from)
    } else {
        find_from(s, p, from + 1)
    }
}

/// First index at or after `from` whose character is not an ASCII letter or digit, or `s.len()`.
pub open spec fn alnum_end_from(s: Seq<char>, from: int) -> int
    decreases s.len() - from,
{
    if from < 0 || from >= s.len() {
        s.len() as int
    } else if is_ascii_alnum(s[from]) {
        alnum_end_from(s, from + 1)
    } else {
        from
    }
}

/// Index of the last `c` in `s`, or `-1`.
pub open spec fn last_index_of(s: Seq<char>, c: char) -> int
    decreases s.len(),
{
    if s.len() == 0 {
        -1
    } else if s.last() == c {
        s.len() - 1
    } else {
        last_index_of(s.drop_last(), c)
    }
}

/// The extension an already-lowercased name maps to, if it is a known image type.
pub open spec fn known_extension(t: Seq<char>) -> Option<Seq<char>> {
    if t == seq!['j', 'p', 'e', 'g'] || t == seq!['j', 'p', 'g'] {
        Some(seq!['j', 'p', 'g'])
    } else if t == seq!['p', 'n', 'g'] {
        Some(seq!['p', 'n', 'g'])
    } else if t == seq!['g', 'i', 'f'] {
        Some(seq!['g', 'i', 'f'])
    } else if t == seq!['w', 'e', 'b', 'p'] {
        Some(seq!['w', 'e', 'b', 'p'])
    } else if t == seq!['s', 'v', 'g'] {
        Some(seq!['s', 'v', 'g'])
    } else {
        None
    }
}

/// Where the value of a `wx_fmt=` query key starts, found as
/// `url.to_lowercase().find("wx_fmt=")` gives it: the byte offset of the
/// first `wx_fmt=` in the Unicode-lowercased URL, plus 7, applied to the URL
/// itself. `None` when the lowercased URL holds no `wx_fmt=`; `Some(None)`
/// when that byte offset is not a character boundary of the URL (cutting
/// the URL there panics); else `Some(Some(j))`, `j` the character index.
pub open spec fn wx_fmt_cut(url: Seq<char>) -> Option<Option<int>> {
    let lower = to_lowercase_result(url);
    match find_from(lower, wx_fmt_key(), 0) {
        Some(k) => Some(char_count_at_bytes(url, 0, 0, utf8_bytes_len(lower.take(k)) + 7)),
        None => None,
    }
}

/// The extension can be guessed without a panic: the `wx_fmt=` cut, if any,
/// falls on a character boundary.
pub open spec fn guess_extension_defined(url: Seq<char>) -> bool {
    wx_fmt_cut(url) != Some(None::<int>)
}

/// The extension given by a `wx_fmt=` query key: the ASCII letters and
/// digits right after it, lowercased, when they name a known type.
pub open spec fn wx_fmt_extension(url: Seq<char>) -> Option<Seq<char>> {
    match wx_fmt_cut(url) {
        Some(Some(j)) => known_extension(to_lowercase_result(url.subrange(j, alnum_end_from(url, j)))),
        _ => None,
    }
}

/// The extension given by the text after the last `.` of the part before
/// the first `?`, lowercased.
pub open spec fn path_extension(url: Seq<char>) -> Option<Seq<char>> {
    let path = url.subrange(0, first_from(url, 0, '?'));
    let ext = path.subrange(last_index_of(path, '.') + 1, path.len() as int);
    known_extension(to_lowercase_result(ext))
}

/// The file extension for an image URL: `wx_fmt=` first, then the path's
/// extension, else `jpg`.
pub open spec fn guess_extension_spec(url: Seq<char>) -> Seq<char> {
    match wx_fmt_extension(url) {
        Some(e) => e,
        None => match path_extension(url) {
            Some(e) => e,
            None => seq!['j', 'p', 'g'],
        },
    }
}

fn known_extension_exec(t: &[char]) -> (r: Option<&'static str>)
    ensures
        match r {
            Some(e) => known_extension(t@) == Some(e@),
            None => known_extension(t@) is None,
        },
{
    proof {
        reveal_strlit("jpg");
        reveal_strlit("png");
        reveal_strlit("gif");
        reveal_strlit("webp");
        reveal_strlit("svg");
    }
    let jpeg = vec!['j', 'p', 'e', 'g'];
    let jpg = vec!['j', 'p', 'g'];
    let png = vec!['p', 'n', 'g'];
    let gif = vec!['g', 'i', 'f'];
    let webp = vec!['w', 'e', 'b', 'p'];
    let svg = vec!['s', 'v', 'g'];
    assert(jpeg@ =~= seq!['j', 'p', 'e', 'g']);
    assert(jpg@ =~= seq!['j', 'p', 'g']);
    assert(png@ =~= seq!['p', 'n', 'g']);
    assert(gif@ =~= seq!['g', 'i', 'f']);
    assert(webp@ =~= seq!['w', 'e', 'b', 'p']);
    assert(svg@ =~= seq!['s', 'v', 'g']);
    assert("jpg"@ =~= seq!['j', 'p', 'g']);
    assert("png"@ =~= seq!['p', 'n', 'g']);
    assert("gif"@ =~= seq!['g', 'i', 'f']);
    assert("webp"@ =~= seq!['w', 'e', 'b', 'p']);
    assert("svg"@ =~= seq!['s', 'v', 'g']);
    if chars_eq(t, &jpeg) || chars_eq(t, &jpg) {
        Some("jpg")
    } else if chars_eq(t, &png) {
        Some("png")
    } else if chars_eq(t, &gif) {
        Some("gif")
    } else if chars_eq(t, &webp) {
        Some("webp")
    } else if chars_eq(t, &svg) {
        Some("svg")
    } else {
        None
    }
}

fn find_seq_from(s: &[char], p: &[char], from: usize) -> (r: Option<usize>)
    ensures
        match r {
            Some(k) => find_from(s@, p@, from as int) == Some(k as int),
            None => find_from(s@, p@, from as int) is None,
        },
{
    let n = s.len();
    if p.len() > n || from > n - p.len() {
        return None;
    }
    let last = n - p.len();
    let mut i = from;
    while i <= last
        invariant
            from <= i,
            last == s@.len() - p@.len(),
            last <= n == s@.len(),
            i <= last + 1,
            find_from(s@, p@, i as int) == find_from(s@, p@, from as int),
        decreases last + 1 - i,
    {
        if occurs_at_exec(s, p, i) {
            return Some(i);
        }
        if i == last {
            assert(find_from(s@, p@, i + 1) is None);
            return None;
        }
        i = i + 1;
    }
    None
}

/// The lowercase form of `s`, as characters.
fn lowercase_chars(s: &[char]) -> (r: Vec<char>)
    ensures
        r@ == to_lowercase_result(s@),
{
    let t = string_of(s);
    let l = str_to_lowercase(t.as_str());
    chars_of(l.as_str())
}

/// Where the `wx_fmt=` value starts in `u`, the characters of `url`.
fn wx_fmt_cut_exec(url: &str, u: &[char]) -> (r: Option<Option<usize>>)
    requires
        u@ == url@,
    ensures
        match r {
            None => wx_fmt_cut(url@) is None,
            Some(None) => wx_fmt_cut(url@) == Some(None::<int>),
            Some(Some(j)) => wx_fmt_cut(url@) == Some(Some(j as int)),
        },
{
    let lower = chars_of(str_to_lowercase(url).as_str());
    let key = vec!['w', 'x', '_', 'f', 'm', 't', '='];
    assert(key@ =~= wx_fmt_key());
    match find_seq_from(&lower, &key, 0) {
        Some(k) => {
            proof {
                lemma_find_from_some(lower@, key@, 0, k as int);
            }
            let b = utf8_prefix_bytes(&lower, k);
            Some(char_index_at_bytes(u, b + 7))
        },
        None => None,
    }
}

/// Whether [`guess_extension`] is defined on `url`: false exactly when the
/// `wx_fmt=` value would be cut inside a character.
pub fn guess_extension_is_defined(url: &str) -> (b: bool)
    ensures
        b == guess_extension_defined(url@),
{
    let u = chars_of(url);
    match wx_fmt_cut_exec(url, &u) {
        Some(None) => false,
        _ => true,
    }
}

/// The file extension to save an image URL under: the `wx_fmt=` query value
/// (WeChat/Tencent CDN) when it names a known type, else the extension after
/// the last `.` of the path, else `jpg`. Known types are `jpeg`/`jpg` (as
/// `jpg`), `png`, `gif`, `webp` and `svg`, in any case. The `wx_fmt=` key is
/// found in the lowercased URL and its byte offset applied to the URL, so
/// the URL must not be cut inside a character there.
pub fn guess_extension(url: &str) -> (ext: &'static str)
    requires
        guess_extension_defined(url@),
    ensures
        ext@ == guess_extension_spec(url@),
{
    let u = chars_of(url);
    let n = u.len();
    match wx_fmt_cut_exec(url, &u) {
        Some(Some(start)) => {
            proof {
                lemma_char_count_at_bytes(u@, 0, 0, (utf8_bytes_len(to_lowercase_result(url@).take(
                    find_from(to_lowercase_result(url@), wx_fmt_key(), 0)->0,
                )) + 7) as nat);
            }
            let mut end = start;
            while end < n && is_ascii_alphanumeric(u[end])
                invariant
                    start <= end <= n == u@.len(),
                    forall|j: int| start <= j < end ==> is_ascii_alnum(u@[j]),
                decreases n - end,
            {
                end = end + 1;
            }
            proof {
                lemma_alnum_end_is(u@, start as int, end as int);
            }
            let token = lowercase_chars(&slice_chars(&u, start, end));
            if let Some(e) = known_extension_exec(&token) {
                return e;
            }
        },
        _ => {},
    }
    let q = crate::parser::find_first_from(&u, 0, '?');
    let path = slice_chars(&u, 0, q);
    let m = path.len();
    let mut d = m;
    while d > 0 && path[d - 1] != '.'
        invariant
            d <= m == path@.len(),
            forall|j: int| d <= j < m ==> path@[j] != '.',
        decreases d,
    {
        d = d - 1;
    }
    proof {
        lemma_last_index_is(path@, d as int - 1);
    }
    let ext = lowercase_chars(&slice_chars(&path, d, m));
    match known_extension_exec(&ext) {
        Some(e) => e,
        None => {
            proof {
                reveal_strlit("jpg");
            }
            "jpg"
        },
    }
}

proof fn lemma_find_from_some(s: Seq<char>, p: Seq<char>, from: int, k: int)
    requires
        find_from(s, p, from) == Some(k),
    ensures
        occurs_at(s, p, k),
        from <= k,
    decreases s.len() + 1 - from,
{
    if from >= 0 && from + p.len() <= s.len() && !occurs_at(s, p, from) {
        lemma_find_from_some(s, p, from + 1, k);
    }
}

proof fn lemma_alnum_end_is(s: Seq<char>, from: int, k: int)
    requires
        0 <= from <= k <= s.len(),
        forall|j: int| from <= j < k ==> is_ascii_alnum(s[j]),
        k == s.len() || !is_ascii_alnum(s[k]),
    ensures
        alnum_end_from(s, from) == k,
    decreases k - from,
{
    if from < k {
        lemma_alnum_end_is(s, from + 1, k);
    }
}

proof fn lemma_last_index_is(s: Seq<char>, k: int)
    requires
        -1 <= k < s.len(),
        forall|j: int| k < j < s.len() ==> s[j] != '.',
        k == -1 || s[k] == '.',
    ensures
        last_index_of(s, '.') == k,
    decreases s.len(),
{
    if s.len() > 0 && k < s.len() - 1 {
        let t = s.drop_last();
        assert forall|j: int| k < j < t.len() implies t[j] != '.' by {
            assert(t[j] == s[j]);
        }
        lemma_last_index_is(t, k);
    }
}

// ---------------------------------------------------------------------------
// File names and the download plan
// ---------------------------------------------------------------------------

/// `img-` followed by `index + 1` padded to four digits, `.`, and `ext`.
pub open spec fn local_filename_spec(index: nat, ext: Seq<char>) -> Seq<char> {
    seq!['i', 'm', 'g', '-'] + zero_pad(dec(index + 1), 4) + seq!['.'] + ext
}

/// The local file name of the image at position `index`: `img-0001.jpg`,
/// `img-0002.png`, ... (at least four digits).
pub fn local_filename(index: usize, ext: &str) -> (name: String)
    requires
        index < usize::MAX,
    ensures
        name@ == local_filename_spec(index as nat, ext@),
{
    let mut out = vec!['i', 'm', 'g', '-'];
    let digits = padded_decimal((index + 1) as u64, 4);
    extend_chars(&mut out, &digits);
    out.push('.');
    let e = chars_of(ext);
    extend_chars(&mut out, &e);
    assert(out@ =~= local_filename_spec(index as nat, ext@));
    string_of(&out)
}

/// Different positions never share a file name, whatever the extensions.
pub proof fn law_local_filenames_distinct(i: nat, j: nat, ext_i: Seq<char>, ext_j: Seq<char>)
    requires
        i != j,
    ensures
        local_filename_spec(i, ext_i) != local_filename_spec(j, ext_j),
{
    let pi = zero_pad(dec(i + 1), 4);
    let pj = zero_pad(dec(j + 1), 4);
    let a = local_filename_spec(i, ext_i);
    let b = local_filename_spec(j, ext_j);
    lemma_zero_pad_dec_digits(i + 1, 4);
    lemma_zero_pad_dec_digits(j + 1, 4);
    if a == b {
        if pi.len() == pj.len() {
            assert(a.subrange(4, 4 + pi.len() as int) =~= pi);
            assert(b.subrange(4, 4 + pj.len() as int) =~= pj);
            lemma_dec_value_zero_pad(dec(i + 1), 4);
            lemma_dec_value_zero_pad(dec(j + 1), 4);
            lemma_dec_value_of_dec(i + 1);
            lemma_dec_value_of_dec(j + 1);
        } else if pi.len() < pj.len() {
            assert(a[4 + pi.len() as int] == '.');
            assert(b[4 + pi.len() as int] == pj[pi.len() as int]);
        } else {
            assert(b[4 + pj.len() as int] == '.');
            assert(a[4 + pj.len() as int] == pi[pj.len() as int]);
        }
    }
}

/// The planned downloads never share a URL or a target file: each image is
/// downloaded once, to a file of its own.
pub proof fn law_plan_jobs_distinct(markdown: Seq<char>)
    ensures
        forall|i: int, j: int|
            0 <= i < j < plan_spec(markdown).len() ==> (#[trigger] plan_spec(markdown)[i]).0
                != (#[trigger] plan_spec(markdown)[j]).0 && plan_spec(markdown)[i].1
                != plan_spec(markdown)[j].1,
{
    let images = extract_image_urls_spec(markdown);
    law_dedupe_distinct(md_images_from(markdown, 0));
    assert forall|i: int, j: int| 0 <= i < j < plan_spec(markdown).len() implies (
    #[trigger] plan_spec(markdown)[i]).0 != (#[trigger] plan_spec(markdown)[j]).0
        && plan_spec(markdown)[i].1 != plan_spec(markdown)[j].1 by {
        assert(images[i].1 != images[j].1);
        law_local_filenames_distinct(
            i as nat,
            j as nat,
            guess_extension_spec(images[i].1),
            guess_extension_spec(images[j].1),
        );
    }
}

/// The planned downloads: `(url, file name)` for every image of the Markdown,
/// in order of first appearance.
pub open spec fn plan_spec(markdown: Seq<char>) -> Seq<(Seq<char>, Seq<char>)> {
    let images = extract_image_urls_spec(markdown);
    Seq::new(
        images.len(),
        |k: int| (images[k].1, local_filename_spec(k as nat, guess_extension_spec(images[k].1))),
    )
}

/// Every image URL of the Markdown has a guessable extension.
pub open spec fn plan_defined(markdown: Seq<char>) -> bool {
    forall|k: int|
        0 <= k < extract_image_urls_spec(markdown).len() ==> guess_extension_defined(
            #[trigger] extract_image_urls_spec(markdown)[k].1,
        )
}

/// For each distinct image URL of `markdown`, the URL and the file name to
/// download it to; `None` when the extension of some URL cannot be guessed
/// (its `wx_fmt=` value would be cut inside a character).
pub fn plan_image_downloads(markdown: &str) -> (jobs: Option<Vec<(String, String)>>)
    ensures
        match jobs {
            Some(v) => plan_defined(markdown@) && v.deep_view() == plan_spec(markdown@),
            None => !plan_defined(markdown@),
        },
{
    let images = extract_image_urls(markdown);
    let n = images.len();
    let mut jobs: Vec<(String, String)> = Vec::new();
    for k in 0..n
        invariant
            n == images.deep_view().len(),
            images.deep_view() == extract_image_urls_spec(markdown@),
            jobs.deep_view() =~= plan_spec(markdown@).take(k as int),
            forall|i: int| 0 <= i < k ==> guess_extension_defined(
                #[trigger] extract_image_urls_spec(markdown@)[i].1,
            ),
    {
        let url = images[k].1.clone();
        assert(images.deep_view()[k as int].1 == images@[k as int].1@);
        if !guess_extension_is_defined(url.as_str()) {
            return None;
        }
        let ext = guess_extension(url.as_str());
        let name = local_filename(k, ext);
        let ghost before = jobs.deep_view();
        jobs.push((url, name));
        assert(jobs.deep_view() =~= before.push((url@, name@)));
        assert(plan_spec(markdown@)[k as int] == (url@, name@));
        assert(jobs.deep_view() =~= plan_spec(markdown@).take(k + 1));
    }
    assert(plan_spec(markdown@).take(n as int) =~= plan_spec(markdown@));
    Some(jobs)
}

// ---------------------------------------------------------------------------
// Rewriting after the downloads
// ---------------------------------------------------------------------------

/// The local reference for `url`: the first entry of `map` with that URL.
pub open spec fn lookup_from(map: Seq<(Seq<char>, Seq<char>)>, url: Seq<char>, i: int) -> Option<
    Seq<char>,
>
    decreases map.len() - i,
{
    if i < 0 || i >= map.len() {
        None
    } else if map[i].0 == url {
        Some(map[i].1)
    } else {
        lookup_from(map, url, i + 1)
    }
}

/// `s` from `pos` on with every image reference whose URL `map` holds pointed
/// at its local copy: `![alt](URL)` becomes `![alt](LOCAL)`.
pub open spec fn rewrite_from(s: Seq<char>, map: Seq<(Seq<char>, Seq<char>)>, pos: int) -> Seq<char>
    decreases s.len() - pos,
{
    if pos < 0 || pos >= s.len() {
        seq![]
    } else {
        match md_img_match_at(s, pos) {
            Some((as_, ae, us, ue, e)) => {
                proof {
                    lemma_md_img_match_bounds(s, pos);
                }
                let replaced = match lookup_from(map, s.subrange(us, ue), 0) {
                    Some(local) => seq!['!', '['] + s.subrange(as_, ae) + seq![']', '('] + local
                        + seq![')'],
                    None => s.subrange(pos, e),
                };
                replaced + rewrite_from(s, map, e)
            },
            None => seq![s[pos]] + rewrite_from(s, map, pos + 1),
        }
    }
}

proof fn lemma_rewrite_empty_from(s: Seq<char>, pos: int)
    requires
        0 <= pos <= s.len(),
    ensures
        rewrite_from(s, seq![], pos) == s.subrange(pos, s.len() as int),
    decreases s.len() - pos,
{
    if pos < s.len() {
        match md_img_match_at(s, pos) {
            Some((as_, ae, us, ue, e)) => {
                lemma_md_img_match_bounds(s, pos);
                lemma_rewrite_empty_from(s, e);
                assert(s.subrange(pos, e) + s.subrange(e, s.len() as int) =~= s.subrange(
                    pos,
                    s.len() as int,
                ));
            },
            None => {
                lemma_rewrite_empty_from(s, pos + 1);
                assert(seq![s[pos]] + s.subrange(pos + 1, s.len() as int) =~= s.subrange(
                    pos,
                    s.len() as int,
                ));
            },
        }
    } else {
        assert(s.subrange(pos, s.len() as int) =~= Seq::<char>::empty());
    }
}

/// When no download succeeded, the Markdown is left exactly as it was:
/// rewriting with no local copies changes nothing.
pub proof fn law_rewrite_without_downloads_is_identity(markdown: Seq<char>)
    ensures
        rewrite_from(markdown, seq![], 0) == markdown,
{
    lemma_rewrite_empty_from(markdown, 0);
    assert(markdown.subrange(0, markdown.len() as int) =~= markdown);
}

/// The `(url, local)` pairs of the downloads that succeeded among the first `n`.
pub open spec fn succeeded(
    jobs: Seq<(Seq<char>, Seq<char>)>,
    refs: Seq<Option<Seq<char>>>,
    n: int,
) -> Seq<(Seq<char>, Seq<char>)>
    decreases n,
{
    if n <= 0 {
        seq![]
    } else {
        let prev = succeeded(jobs, refs, n - 1);
        match refs[n - 1] {
            Some(local) => prev.push((jobs[n - 1].0, local)),
            None => prev,
        }
    }
}

/// How many of the first `n` downloads succeeded.
pub open spec fn count_succeeded(refs: Seq<Option<Seq<char>>>, n: int) -> nat
    decreases n,
{
    if n <= 0 {
        0
    } else {
        count_succeeded(refs, n - 1) + if refs[n - 1] is Some {
            1nat
        } else {
            0nat
        }
    }
}

proof fn lemma_count_succeeded_le(refs: Seq<Option<Seq<char>>>, n: int)
    ensures
        count_succeeded(refs, n) <= if n < 0 {
            0
        } else {
            n
        },
    decreases n,
{
    if n > 0 {
        lemma_count_succeeded_le(refs, n - 1);
    }
}

fn lookup_local(map: &Vec<(String, String)>, url: &[char]) -> (r: Option<Vec<char>>)
    ensures
        match r {
            Some(v) => lookup_from(map.deep_view(), url@, 0) == Some(v@),
            None => lookup_from(map.deep_view(), url@, 0) is None,
        },
{
    let n = map.len();
    let mut i: usize = 0;
    while i < n
        invariant
            n == map.deep_view().len(),
            i <= n,
            lookup_from(map.deep_view(), url@, i as int) == lookup_from(map.deep_view(), url@, 0),
        decreases n - i,
    {
        let key = chars_of(map[i].0.as_str());
        assert(map.deep_view()[i as int] == (map@[i as int].0@, map@[i as int].1@));
        if chars_eq(&key, url) {
            return Some(chars_of(map[i].1.as_str()));
        }
        i = i + 1;
    }
    None
}

/// The Markdown with each image reference whose URL `map` holds rewritten
/// to `![alt](LOCAL)`; everything else is kept.
pub fn rewrite_image_links(markdown: &str, map: &Vec<(String, String)>) -> (r: String)
    ensures
        r@ == rewrite_from(markdown@, map.deep_view(), 0),
{
    let s = chars_of(markdown);
    let https = prefix_chars_https();
    let http = prefix_chars_http();
    let n = s.len();
    let mut out: Vec<char> = Vec::new();
    let mut pos: usize = 0;
    while pos < n
        invariant
            n == s@.len(),
            pos <= n,
            https@ == https_prefix(),
            http@ == http_prefix(),
            out@ + rewrite_from(s@, map.deep_view(), pos as int) == rewrite_from(
                s@,
                map.deep_view(),
                0,
            ),
        decreases n - pos,
    {
        let ghost before = out@;
        match md_img_match_at_exec(&s, pos, &https, &http) {
            Some((as_, ae, us, ue, e)) => {
                proof {
                    lemma_md_img_match_bounds(s@, pos as int);
                }
                let url = slice_chars(&s, us, ue);
                match lookup_local(map, &url) {
                    Some(local) => {
                        out.push('!');
                        out.push('[');
                        extend_chars(&mut out, &slice_chars(&s, as_, ae));
                        out.push(']');
                        out.push('(');
                        extend_chars(&mut out, &local);
                        out.push(')');
                    },
                    None => {
                        extend_chars(&mut out, &slice_chars(&s, pos, e));
                    },
                }
                assert(before + rewrite_from(s@, map.deep_view(), pos as int) =~= out@
                    + rewrite_from(s@, map.deep_view(), e as int));
                pos = e;
            },
            None => {
                out.push(s[pos]);
                assert(before + rewrite_from(s@, map.deep_view(), pos as int) =~= out@
                    + rewrite_from(s@, map.deep_view(), pos + 1));
                pos = pos + 1;
            },
        }
    }
    assert(out@ =~= out@ + rewrite_from(s@, map.deep_view(), pos as int));
    string_of(&out)
}

/// Applies the outcome of the downloads planned for `markdown`: `refs[k]` is
/// the local reference of `jobs[k]` when its download succeeded. Returns the
/// rewritten Markdown (failed downloads keep their URL) and the counts.
pub fn finish_localization(
    markdown: &str,
    jobs: &Vec<(String, String)>,
    refs: &Vec<Option<String>>,
) -> (r: (String, DownloadStats))
    requires
        jobs@.len() == refs@.len(),
    ensures
        r.0@ == rewrite_from(
            markdown@,
            succeeded(jobs.deep_view(), refs.deep_view(), refs@.len() as int),
            0,
        ),
        r.1.total == jobs@.len(),
        r.1.downloaded == count_succeeded(refs.deep_view(), refs@.len() as int),
        r.1.failed == jobs@.len() - count_succeeded(refs.deep_view(), refs@.len() as int),
        r.1.skipped == 0,
{
    let n = jobs.len();
    let mut map: Vec<(String, String)> = Vec::new();
    let mut downloaded: usize = 0;
    let mut failed: usize = 0;
    for k in 0..n
        invariant
            n == jobs@.len() == refs@.len(),
            jobs.deep_view().len() == n,
            refs.deep_view().len() == n,
            map.deep_view() == succeeded(jobs.deep_view(), refs.deep_view(), k as int),
            downloaded == count_succeeded(refs.deep_view(), k as int),
            downloaded + failed == k,
    {
        proof {
            lemma_count_succeeded_le(refs.deep_view(), k as int);
        }
        assert(refs.deep_view()[k as int] == refs@[k as int].deep_view());
        assert(jobs.deep_view()[k as int].0 == jobs@[k as int].0@);
        match &refs[k] {
            Some(local) => {
                map.push((jobs[k].0.clone(), local.clone()));
                downloaded = downloaded + 1;
                assert(map.deep_view() =~= succeeded(jobs.deep_view(), refs.deep_view(), k + 1));
            },
            None => {
                failed = failed + 1;
            },
        }
    }
    let text = rewrite_image_links(markdown, &map);
    let stats = DownloadStats { total: n, downloaded, skipped: 0, failed };
    (text, stats)
}

/// The path of `path` relative to `base` as `Path::strip_prefix` gives it
/// (lossily converted to a string), or `None` when `base` is not a prefix.
pub uninterp spec fn path_strip_prefix_result(path: Seq<char>, base: Seq<char>) -> Option<Seq<char>>;

/// Calls `std::path::Path::strip_prefix` (component-wise prefix removal) and
/// converts the remainder with `to_string_lossy`. Claimed: the result depends
/// only on the two path texts; nothing more is stated.
#[verifier::external_body]
fn path_strip_prefix(path: &str, base: &str) -> (r: Option<String>)
    ensures
        match r {
            Some(rel) => path_strip_prefix_result(path@, base@) == Some(rel@),
            None => path_strip_prefix_result(path@, base@) is None,
        },
{
    std::path::Path::new(path).strip_prefix(base).ok().map(|p| p.to_string_lossy().into_owned())
}

/// How Markdown in directory `parent_abs` refers to `filename` in directory
/// `assets_abs` (both already made absolute).
pub open spec fn relative_ref_spec(assets_abs: Seq<char>, parent_abs: Seq<char>, filename: Seq<char>) -> Seq<char> {
    match path_strip_prefix_result(assets_abs, parent_abs) {
        Some(rel) => if rel.len() == 0 {
            filename
        } else {
            rel + seq!['/'] + filename
        },
        None => assets_abs + seq!['/'] + filename,
    }
}

/// The reference to `assets_abs/filename` from Markdown stored in
/// `parent_abs`: relative when the assets directory lies inside the
/// Markdown's directory, absolute otherwise.
pub fn relative_ref(assets_abs: &str, parent_abs: &str, filename: &str) -> (r: String)
    ensures
        r@ == relative_ref_spec(assets_abs@, parent_abs@, filename@),
{
    match path_strip_prefix(assets_abs, parent_abs) {
        Some(rel) => {
            if rel.as_str().is_empty() {
                crate::strs::string_from(filename)
            } else {
                let mut out = rel;
                out.append("/");
                out.append(filename);
                proof {
                    reveal_strlit("/");
                }
                out
            }
        },
        None => {
            let mut out = crate::strs::string_from(assets_abs);
            out.append("/");
            out.append(filename);
            proof {
                reveal_strlit("/");
            }
            out
        },
    }
}

// ---------------------------------------------------------------------------
// Download concurrency
// ---------------------------------------------------------------------------

/// The number `usize::from_str` reads from `s`: an optional `+` and at least
/// one ASCII digit, nothing else, at most `usize::MAX`.
pub open spec fn parse_usize_spec(s: Seq<char>) -> Option<nat> {
    let digits = digits_part(s);
    if digits.len() > 0 && all_ascii_digits(digits) && dec_value(digits) <= usize::MAX {
        Some(dec_value(digits) as nat)
    } else {
        None
    }
}

/// `s` without one leading `+`.
pub open spec fn digits_part(s: Seq<char>) -> Seq<char> {
    if s.len() > 0 && s[0] == '+' {
        s.drop_first()
    } else {
        s
    }
}

pub open spec fn is_ascii_digit(c: char) -> bool {
    '0' <= c && c <= '9'
}

/// Every character of `d` is an ASCII digit.
pub open spec fn all_ascii_digits(d: Seq<char>) -> bool {
    forall|i: int| 0 <= i < d.len() ==> is_ascii_digit(#[trigger] d[i])
}

/// The download concurrency: the value of the setting when it is a number
/// from 1 to 64, else 8.
pub open spec fn concurrency_spec(setting: Option<Seq<char>>) -> nat {
    match setting {
        Some(s) => match parse_usize_spec(s) {
            Some(v) => if 1 <= v <= 64 {
                v
            } else {
                8
            },
            None => 8,
        },
        None => 8,
    }
}

proof fn lemma_dec_value_nonneg(s: Seq<char>)
    requires
        forall|i: int| 0 <= i < s.len() ==> '0' <= #[trigger] s[i] <= '9',
    ensures
        dec_value(s) >= 0,
    decreases s.len(),
{
    if s.len() > 0 {
        lemma_dec_value_nonneg(s.drop_last());
    }
}

fn parse_usize(s: &[char]) -> (r: Option<usize>)
    ensures
        match r {
            Some(v) => parse_usize_spec(s@) == Some(v as nat),
            None => parse_usize_spec(s@) is None,
        },
{
    let n = s.len();
    let start: usize = if n > 0 && s[0] == '+' {
        1
    } else {
        0
    };
    let ghost digits = digits_part(s@);
    assert(digits =~= s@.subrange(start as int, n as int));
    if start >= n {
        return None;
    }
    let mut v: usize = 0;
    let mut i = start;
    let mut overflow = false;
    while i < n
        invariant
            start <= i <= n == s@.len(),
            digits == s@.subrange(start as int, n as int),
            digits == digits_part(s@),
            forall|k: int| start <= k < i ==> '0' <= #[trigger] s@[k] <= '9',
            !overflow ==> v == dec_value(s@.subrange(start as int, i as int)),
            overflow ==> dec_value(s@.subrange(start as int, i as int)) > usize::MAX,
        decreases n - i,
    {
        let c = s[i];
        if !('0' <= c && c <= '9') {
            assert(digits[i - start] == s@[i as int]);
            assert(!is_ascii_digit(digits[i - start]));
            assert(!all_ascii_digits(digits));
            return None;
        }
        let d = (c as u32 - '0' as u32) as usize;
        let ghost prefix = s@.subrange(start as int, i as int);
        assert(s@.subrange(start as int, i + 1).drop_last() =~= prefix);
        assert(s@.subrange(start as int, i + 1).last() == c);
        proof {
            lemma_dec_value_nonneg(prefix);
        }
        if !overflow {
            if v > (usize::MAX - d) / 10 {
                overflow = true;
                assert(v * 10 + d > usize::MAX) by (nonlinear_arith)
                    requires
                        v > (usize::MAX - d) / 10,
                        d < 10,
                ;
            } else {
                assert(v * 10 + d <= usize::MAX) by (nonlinear_arith)
                    requires
                        v <= (usize::MAX - d) / 10,
                        d < 10,
                ;
                v = v * 10 + d;
            }
        } else {
            assert(dec_value(prefix) * 10 + d > usize::MAX) by (nonlinear_arith)
                requires
                    dec_value(prefix) > usize::MAX,
                    d >= 0,
            ;
        }
        i = i + 1;
    }
    if overflow {
        None
    } else {
        Some(v)
    }
}

/// How many downloads may run at once, from the optional setting text
/// (`URL_MD_IMAGE_CONCURRENCY`): its value when it reads as a number from 1
/// to 64, else 8.
pub fn concurrency_from(setting: Option<&str>) -> (n: usize)
    ensures
        n == concurrency_spec(match setting {
            Some(s) => Some(s@),
            None => None,
        }),
{
    match setting {
        Some(s) => {
            let v = chars_of(s);
            match parse_usize(&v) {
                Some(k) => if 1 <= k && k <= 64 {
                    k
                } else {
                    8
                },
                None => 8,
            }
        },
        None => 8,
    }
}

} // verus!
