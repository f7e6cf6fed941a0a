//! HTML fragment to Markdown, with lazy-loaded images repaired first.
//!
//! Pages such as WeChat articles keep the real image URL in `data-src` and
//! leave `src` empty or pointing at a placeholder. Every `<img ...>` tag that
//! carries a non-empty `data-src="URL"` is rewritten to `<img ... src="URL">`,
//! with the old `src` and `data-src` attributes removed, before the HTML is
//! handed to html2md.
//!
//! The tag grammar is `<img`, then the shortest run of characters other than
//! `>`, then an optional `/`, then `>`. An attribute is `name`, optional
//! whitespace, `=`, optional whitespace, and a double-quoted value; it counts
//! only at the start of the attribute text or right after a whitespace
//! character, so `src` never matches inside `data-src`.
use vstd::prelude::*;
use crate::strs::{chars_of, extend_chars, is_whitespace, is_ws, occurs_at, occurs_at_exec, slice_chars, string_of};

verus! {

/// Index of the first `c` in `s` at or after `from`, or `s.len()` when there is none.
pub open spec fn first_from(s: Seq<char>, from: int, c: char) -> int
    decreases s.len() - from,
{
    if from < 0 || from >= s.len() {
        s.len() as int
    } else if s[from] == c {
        from
    } else {
        first_from(s, from + 1, c)
    }
}

/// Index of the first non-whitespace character of `s` at or after `from`, or `s.len()`.
pub open spec fn skip_ws_from(s: Seq<char>, from: int) -> int
    decreases s.len() - from,
{
    if from < 0 || from >= s.len() {
        s.len() as int
    } else if is_ws(s[from]) {
        skip_ws_from(s, from + 1)
    } else {
        from
    }
}

pub proof fn lemma_first_from_bounds(s: Seq<char>, from: int, c: char)
    requires
        0 <= from,
    ensures
        from <= first_from(s, from, c) || first_from(s, from, c) == s.len(),
        first_from(s, from, c) <= s.len(),
        first_from(s, from, c) < s.len() ==> s[first_from(s, from, c)] == c,
        forall|i: int| from <= i < first_from(s, from, c) ==> s[i] != c,
    decreases s.len() - from,
{
    if from < s.len() && s[from] != c {
        lemma_first_from_bounds(s, from + 1, c);
    }
}

pub proof fn lemma_first_from_is(s: Seq<char>, from: int, c: char, k: int)
    requires
        0 <= from <= k <= s.len(),
        forall|i: int| from <= i < k ==> s[i] != c,
        k == s.len() || s[k] == c,
    ensures
        first_from(s, from, c) == k,
    decreases k - from,
{
    if from < k {
        lemma_first_from_is(s, from + 1, c, k);
    }
}

pub proof fn lemma_skip_ws_is(s: Seq<char>, from: int, k: int)
    requires
        0 <= from <= k <= s.len(),
        forall|i: int| from <= i < k ==> is_ws(#[trigger] s[i]),
        k == s.len() || !is_ws(s[k]),
    ensures
        skip_ws_from(s, from) == k,
    decreases k - from,
{
    if from < k {
        lemma_skip_ws_is(s, from + 1, k);
    }
}

pub open spec fn img_open() -> Seq<char> {
    seq!['<', 'i', 'm', 'g']
}

pub open spec fn src_name() -> Seq<char> {
    seq!['s', 'r', 'c']
}

pub open spec fn data_src_name() -> Seq<char> {
    seq!['d', 'a', 't', 'a', '-', 's', 'r', 'c']
}

/// The `<img ...>` tag starting at `i`, if one does: the end of its attribute
/// text and the end of the whole tag. The attribute text starts at `i + 4`.
pub open spec fn img_match_at(s: Seq<char>, i: int) -> Option<(int, int)> {
    if occurs_at(s, img_open(), i) {
        let p = first_from(s, i + 4, '>');
        if p < s.len() {
            let attrs_end = if p - 1 >= i + 4 && s[p - 1] == '/' {
                p - 1
            } else {
                p
            };
            Some((attrs_end, p + 1))
        } else {
            None
        }
    } else {
        None
    }
}

/// `name\s*=\s*"value"` with `name` at `k`: the value's bounds and the end of the attribute.
pub open spec fn attr_tail(a: Seq<char>, name: Seq<char>, k: int) -> Option<(int, int, int)> {
    if occurs_at(a, name, k) {
        let q = skip_ws_from(a, k + name.len());
        if q < a.len() && a[q] == '=' {
            let r = skip_ws_from(a, q + 1);
            if r < a.len() && a[r] == '"' {
                let t = first_from(a, r + 1, '"');
                if t < a.len() {
                    Some((r + 1, t, t + 1))
                } else {
                    None
                }
            } else {
                None
            }
        } else {
            None
        }
    } else {
        None
    }
}

/// The attribute `name` matched with its match starting at `i`: either at the
/// very start of `a`, or right after a whitespace character at `i`.
pub open spec fn attr_match_at(a: Seq<char>, name: Seq<char>, i: int) -> Option<(int, int, int)> {
    if i == 0 && attr_tail(a, name, 0) is Some {
        attr_tail(a, name, 0)
    } else if 0 <= i < a.len() && is_ws(a[i]) {
        attr_tail(a, name, i + 1)
    } else {
        None
    }
}

/// The value of the leftmost `name` attribute match at or after `i`.
pub open spec fn find_attr_from(a: Seq<char>, name: Seq<char>, i: int) -> Option<Seq<char>>
    decreases a.len() - i,
{
    if i < 0 || i >= a.len() {
        None
    } else {
        match attr_match_at(a, name, i) {
            Some((vs, ve, _)) => Some(a.subrange(vs, ve)),
            None => find_attr_from(a, name, i + 1),
        }
    }
}

/// The value of attribute `name` in attribute text `a`, when the leftmost
/// match has a non-empty value.
pub open spec fn extract_attr_spec(a: Seq<char>, name: Seq<char>) -> Option<Seq<char>> {
    match find_attr_from(a, name, 0) {
        Some(v) => if v.len() > 0 {
            Some(v)
        } else {
            None
        },
        None => None,
    }
}

pub proof fn lemma_attr_match_end(a: Seq<char>, name: Seq<char>, i: int)
    requires
        0 <= i,
        attr_match_at(a, name, i) is Some,
    ensures
        ({
            let (vs, ve, e) = attr_match_at(a, name, i)->0;
            &&& i < e <= a.len()
            &&& 0 <= vs <= ve <= a.len()
        }),
{
    let k = if i == 0 && attr_tail(a, name, 0) is Some {
        0
    } else {
        i + 1
    };
    let q = skip_ws_from(a, k + name.len());
    lemma_skip_ws_bounds(a, k + name.len());
    let r = skip_ws_from(a, q + 1);
    lemma_skip_ws_bounds(a, q + 1);
    lemma_first_from_bounds(a, r + 1, '"');
}

pub proof fn lemma_skip_ws_bounds(s: Seq<char>, from: int)
    requires
        0 <= from,
    ensures
        from <= skip_ws_from(s, from) || skip_ws_from(s, from) == s.len(),
        skip_ws_from(s, from) <= s.len(),
    decreases s.len() - from,
{
    if from < s.len() && is_ws(s[from]) {
        lemma_skip_ws_bounds(s, from + 1);
    }
}

/// `a` from `i` on with every match of attribute `name` deleted.
pub open spec fn remove_attr_from(a: Seq<char>, name: Seq<char>, i: int) -> Seq<char>
    decreases a.len() - i,
{
    if i < 0 || i >= a.len() {
        seq![]
    } else {
        match attr_match_at(a, name, i) {
            Some((_, _, end)) => {
                proof {
                    lemma_attr_match_end(a, name, i);
                }
                remove_attr_from(a, name, end)
            },
            None => seq![a[i]] + remove_attr_from(a, name, i + 1),
        }
    }
}

/// Attribute text `a` with every match of attribute `name` deleted.
pub open spec fn remove_attr_spec(a: Seq<char>, name: Seq<char>) -> Seq<char> {
    remove_attr_from(a, name, 0)
}

/// The replacement for an `<img>` tag with attribute text `attrs`.
pub open spec fn rewrite_img_spec(attrs: Seq<char>) -> Seq<char> {
    match extract_attr_spec(attrs, data_src_name()) {
        None => img_open() + attrs + seq!['>'],
        Some(url) => img_open() + remove_attr_spec(remove_attr_spec(attrs, src_name()), data_src_name())
            + seq![' ', 's', 'r', 'c', '=', '"'] + url + seq!['"', '>'],
    }
}

/// `s` from `pos` on with every `<img>` tag rewritten.
pub open spec fn restore_from(s: Seq<char>, pos: int) -> Seq<char>
    decreases s.len() - pos,
{
    if pos < 0 || pos >= s.len() {
        seq![]
    } else {
        match img_match_at(s, pos) {
            Some((attrs_end, end)) => {
                proof {
                    lemma_first_from_bounds(s, pos + 4, '>');
                }
                rewrite_img_spec(s.subrange(pos + 4, attrs_end)) + restore_from(s, end)
            },
            None => seq![s[pos]] + restore_from(s, pos + 1),
        }
    }
}

/// The HTML with every `<img>` tag rewritten.
pub open spec fn restore_spec(html: Seq<char>) -> Seq<char> {
    restore_from(html, 0)
}

/// The Markdown that html2md's `parse_html` produces for an HTML text, or
/// `None` on a text where it does not return: it panics on some malformed
/// markup (a list item outside any list inside inline formatting cuts its
/// output buffer short) and its recursive tree walk can exhaust the stack on
/// very deep nesting.
pub uninterp spec fn html2md_output(html: Seq<char>) -> Option<Seq<char>>;

/// Calls `html2md::parse_html`, which walks the parsed DOM and prints it as
/// Markdown. Its `requires` leaves out the texts on which it does not
/// return. Claimed: the result is a function of the input text alone
/// (`html2md_output`); nothing else is stated about it, and in particular
/// which texts it returns on is only named, not described.
#[verifier::external_body]
fn html2md_parse(html: &str) -> (md: String)
    requires
        html2md_output(html@) is Some,
    ensures
        Some(md@) == html2md_output(html@),
{
    html2md::parse_html(html)
}

fn img_open_chars() -> (v: Vec<char>)
    ensures
        v@ == img_open(),
{
    let v = vec!['<', 'i', 'm', 'g'];
    assert(v@ =~= img_open());
    v
}

fn src_chars() -> (v: Vec<char>)
    ensures
        v@ == src_name(),
{
    let v = vec!['s', 'r', 'c'];
    assert(v@ =~= src_name());
    v
}

fn data_src_chars() -> (v: Vec<char>)
    ensures
        v@ == data_src_name(),
{
    let v = vec!['d', 'a', 't', 'a', '-', 's', 'r', 'c'];
    assert(v@ =~= data_src_name());
    v
}

/// First index of `c` at or after `from`, or `s.len()`.
pub fn find_first_from(s: &[char], from: usize, c: char) -> (k: usize)
    requires
        from <= s@.len(),
    ensures
        k as int == first_from(s@, from as int, c),
        from <= k <= s@.len(),
{
    find_char_from(s, from, c)
}

fn find_char_from(s: &[char], from: usize, c: char) -> (k: usize)
    requires
        from <= s@.len(),
    ensures
        k as int == first_from(s@, from as int, c),
        from <= k <= s@.len(),
{
    let n = s.len();
    let mut k = from;
    while k < n && s[k] != c
        invariant
            from <= k <= n == s@.len(),
            forall|i: int| from <= i < k ==> s@[i] != c,
        decreases n - k,
    {
        k = k + 1;
    }
    proof {
        lemma_first_from_is(s@, from as int, c, k as int);
    }
    k
}

/// First non-whitespace index at or after `from`, or `s.len()`.
pub fn skip_ws(s: &[char], from: usize) -> (k: usize)
    requires
        from <= s@.len(),
    ensures
        k as int == skip_ws_from(s@, from as int),
        from <= k <= s@.len(),
{
    let n = s.len();
    let mut k = from;
    while k < n && is_whitespace(s[k])
        invariant
            from <= k <= n == s@.len(),
            forall|i: int| from <= i < k ==> is_ws(#[trigger] s@[i]),
        decreases n - k,
    {
        k = k + 1;
    }
    proof {
        lemma_skip_ws_is(s@, from as int, k as int);
    }
    k
}

fn attr_tail_exec(a: &[char], name: &[char], k: usize) -> (r: Option<(usize, usize, usize)>)
    requires
        k <= a@.len(),
    ensures
        match r {
            Some((vs, ve, e)) => attr_tail(a@, name@, k as int) == Some(
                (vs as int, ve as int, e as int),
            ),
            None => attr_tail(a@, name@, k as int) is None,
        },
{
    if !occurs_at_exec(a, name, k) {
        return None;
    }
    let n = a.len();
    let q = skip_ws(a, k + name.len());
    if !(q < n && a[q] == '=') {
        return None;
    }
    let r = skip_ws(a, q + 1);
    if !(r < n && a[r] == '"') {
        return None;
    }
    let t = find_char_from(a, r + 1, '"');
    if t < n {
        Some((r + 1, t, t + 1))
    } else {
        None
    }
}

fn attr_match_at_exec(a: &[char], name: &[char], i: usize) -> (r: Option<(usize, usize, usize)>)
    requires
        i < a@.len(),
    ensures
        match r {
            Some((vs, ve, e)) => attr_match_at(a@, name@, i as int) == Some(
                (vs as int, ve as int, e as int),
            ),
            None => attr_match_at(a@, name@, i as int) is None,
        },
{
    if i == 0 {
        let t = attr_tail_exec(a, name, 0);
        if t.is_some() {
            return t;
        }
    }
    if is_whitespace(a[i]) {
        attr_tail_exec(a, name, i + 1)
    } else {
        None
    }
}

/// The non-empty value of the leftmost `name="..."` attribute in `attrs`.
pub fn extract_attr(attrs: &[char], name: &[char]) -> (r: Option<Vec<char>>)
    ensures
        match r {
            Some(v) => extract_attr_spec(attrs@, name@) == Some(v@),
            None => extract_attr_spec(attrs@, name@) is None,
        },
{
    let n = attrs.len();
    let mut i: usize = 0;
    while i < n
        invariant
            n == attrs@.len(),
            i <= n,
            find_attr_from(attrs@, name@, i as int) == find_attr_from(attrs@, name@, 0),
        decreases n - i,
    {
        match attr_match_at_exec(attrs, name, i) {
            Some((vs, ve, _e)) => {
                proof {
                    lemma_attr_match_end(attrs@, name@, i as int);
                }
                if ve > vs {
                    return Some(slice_chars(attrs, vs, ve));
                } else {
                    return None;
                }
            },
            None => {},
        }
        i = i + 1;
    }
    None
}

/// `attrs` with every `name="..."` attribute match deleted.
pub fn remove_attr(attrs: &[char], name: &[char]) -> (r: Vec<char>)
    ensures
        r@ == remove_attr_spec(attrs@, name@),
{
    let n = attrs.len();
    let mut out: Vec<char> = Vec::new();
    let mut i: usize = 0;
    while i < n
        invariant
            n == attrs@.len(),
            i <= n,
            out@ + remove_attr_from(attrs@, name@, i as int) == remove_attr_spec(attrs@, name@),
        decreases n - i,
    {
        match attr_match_at_exec(attrs, name, i) {
            Some((_vs, _ve, e)) => {
                proof {
                    lemma_attr_match_end(attrs@, name@, i as int);
                }
                i = e;
            },
            None => {
                let ghost before = out@;
                out.push(attrs[i]);
                assert(before + remove_attr_from(attrs@, name@, i as int) =~= out@
                    + remove_attr_from(attrs@, name@, i + 1));
                i = i + 1;
            },
        }
    }
    assert(out@ =~= out@ + remove_attr_from(attrs@, name@, i as int));
    out
}

/// The replacement text for one `<img>` tag with attribute text `attrs`.
pub fn rewrite_img(attrs: &[char]) -> (r: Vec<char>)
    ensures
        r@ == rewrite_img_spec(attrs@),
{
    let data_src = data_src_chars();
    let mut out = img_open_chars();
    match extract_attr(attrs, &data_src) {
        None => {
            extend_chars(&mut out, attrs);
            out.push('>');
            assert(out@ =~= img_open() + attrs@ + seq!['>']);
            out
        },
        Some(url) => {
            let src = src_chars();
            let without_src = remove_attr(attrs, &src);
            let without_both = remove_attr(&without_src, &data_src);
            extend_chars(&mut out, &without_both);
            let tail = vec![' ', 's', 'r', 'c', '=', '"'];
            extend_chars(&mut out, &tail);
            extend_chars(&mut out, &url);
            out.push('"');
            out.push('>');
            assert(out@ =~= img_open() + without_both@ + seq![' ', 's', 'r', 'c', '=', '"'] + url@
                + seq!['"', '>']);
            out
        },
    }
}

fn img_match_at_exec(s: &[char], open: &[char], i: usize) -> (r: Option<(usize, usize)>)
    requires
        i < s@.len(),
        open@ == img_open(),
    ensures
        match r {
            Some((ae, e)) => img_match_at(s@, i as int) == Some((ae as int, e as int)) && i + 4
                <= ae < e <= s@.len(),
            None => img_match_at(s@, i as int) is None,
        },
{
    if !occurs_at_exec(s, open, i) {
        return None;
    }
    let n = s.len();
    assert(open@.len() == 4);
    assert(occurs_at(s@, open@, i as int));
    assert(i + 4 <= n);
    let p = find_char_from(s, i + 4, '>');
    if p < s.len() {
        let ae = if p >= i + 5 && s[p - 1] == '/' {
            p - 1
        } else {
            p
        };
        Some((ae, p + 1))
    } else {
        None
    }
}

/// Rewrites every `<img ...>` tag that has a non-empty `data-src="URL"`
/// attribute to `<img ... src="URL">`, dropping its `src` and `data-src`
/// attributes; other tags lose only a trailing `/` before `>`, and all other
/// text is kept as it is.
pub fn restore_lazy_image_src(html: &str) -> (r: String)
    ensures
        r@ == restore_spec(html@),
{
    let s = chars_of(html);
    let open = img_open_chars();
    let n = s.len();
    let mut out: Vec<char> = Vec::new();
    let mut pos: usize = 0;
    while pos < n
        invariant
            n == s@.len(),
            pos <= n,
            open@ == img_open(),
            out@ + restore_from(s@, pos as int) == restore_spec(s@),
        decreases n - pos,
    {
        match img_match_at_exec(&s, &open, pos) {
            Some((ae, e)) => {
                let attrs = slice_chars(&s, pos + 4, ae);
                let rewritten = rewrite_img(&attrs);
                let ghost before = out@;
                extend_chars(&mut out, &rewritten);
                assert(before + restore_from(s@, pos as int) =~= out@ + restore_from(s@, e as int));
                pos = e;
            },
            None => {
                let ghost before = out@;
                out.push(s[pos]);
                assert(before + restore_from(s@, pos as int) =~= out@ + restore_from(
                    s@,
                    pos + 1,
                ));
                pos = pos + 1;
            },
        }
    }
    assert(out@ =~= out@ + restore_from(s@, pos as int));
    string_of(&out)
}

/// html2md returns on the fragment once its lazy images are repaired.
pub open spec fn html_converts(html: Seq<char>) -> bool {
    html2md_output(restore_spec(html)) is Some
}

/// The Markdown of a fragment on which [`html_converts`] holds.
pub open spec fn html_to_markdown_spec(html: Seq<char>) -> Seq<char> {
    html2md_output(restore_spec(html))->0
}

/// Converts an HTML fragment to Markdown: lazy images are repaired, then
/// html2md renders the result. html2md must return on the repaired text.
pub fn html_to_markdown(html: &str) -> (md: String)
    requires
        html_converts(html@),
    ensures
        md@ == html_to_markdown_spec(html@),
{
    let preprocessed = restore_lazy_image_src(html);
    html2md_parse(preprocessed.as_str())
}

/// HTML that holds no `<img` is left unchanged by the image repair.
pub proof fn law_restore_without_img_is_identity(html: Seq<char>)
    requires
        forall|i: int| !occurs_at(html, img_open(), i),
    ensures
        restore_spec(html) == html,
{
    lemma_restore_from_plain(html, 0);
    assert(html.subrange(0, html.len() as int) =~= html);
}

proof fn lemma_restore_from_plain(html: Seq<char>, pos: int)
    requires
        0 <= pos <= html.len(),
        forall|i: int| !occurs_at(html, img_open(), i),
    ensures
        restore_from(html, pos) == html.subrange(pos, html.len() as int),
    decreases html.len() - pos,
{
    if pos < html.len() {
        lemma_restore_from_plain(html, pos + 1);
        assert(seq![html[pos]] + html.subrange(pos + 1, html.len() as int) =~= html.subrange(
            pos,
            html.len() as int,
        ));
    } else {
        assert(html.subrange(pos, html.len() as int) =~= Seq::<char>::empty());
    }
}


// ---------------------------------------------------------------------------
// Plain attribute lists
// ---------------------------------------------------------------------------

/// The attribute text ` name="value"`.
pub open spec fn attr_text(name: Seq<char>, value: Seq<char>) -> Seq<char> {
    seq![' '] + name + seq!['=', '"'] + value + seq!['"']
}

/// The attribute text of a list of `(name, value)` attributes, each written
/// ` name="value"`, in order.
pub open spec fn attrs_text(items: Seq<(Seq<char>, Seq<char>)>) -> Seq<char>
    decreases items.len(),
{
    if items.len() == 0 {
        seq![]
    } else {
        attr_text(items[0].0, items[0].1) + attrs_text(items.drop_first())
    }
}

/// A plain attribute name: non-empty, without whitespace and without `=`.
pub open spec fn plain_name(n: Seq<char>) -> bool {
    &&& n.len() > 0
    &&& forall|k: int| 0 <= k < n.len() ==> !is_ws(#[trigger] n[k]) && n[k] != '='
}

/// A plain attribute value: without whitespace and without `"`.
pub open spec fn plain_value(v: Seq<char>) -> bool {
    forall|k: int| 0 <= k < v.len() ==> !is_ws(#[trigger] v[k]) && v[k] != '"'
}

/// Every attribute of the list has a plain name and a plain value.
pub open spec fn plain_attrs(items: Seq<(Seq<char>, Seq<char>)>) -> bool {
    forall|j: int| 0 <= j < items.len() ==> plain_name((#[trigger] items[j]).0) && plain_value(items[j].1)
}

/// The list without its attributes named `name`, the others in order.
pub open spec fn without_attr(items: Seq<(Seq<char>, Seq<char>)>, name: Seq<char>) -> Seq<(Seq<char>, Seq<char>)>
    decreases items.len(),
{
    if items.len() == 0 {
        seq![]
    } else if items[0].0 == name {
        without_attr(items.drop_first(), name)
    } else {
        seq![items[0]] + without_attr(items.drop_first(), name)
    }
}

/// The value of the first attribute of the list named `name`.
pub open spec fn first_attr_value(items: Seq<(Seq<char>, Seq<char>)>, name: Seq<char>) -> Option<Seq<char>>
    decreases items.len(),
{
    if items.len() == 0 {
        None
    } else if items[0].0 == name {
        Some(items[0].1)
    } else {
        first_attr_value(items.drop_first(), name)
    }
}

proof fn lemma_plain_names()
    ensures
        plain_name(src_name()),
        plain_name(data_src_name()),
{
    assert forall|k: int| 0 <= k < src_name().len() implies !is_ws(#[trigger] src_name()[k])
        && src_name()[k] != '=' by {
        assert(k == 0 || k == 1 || k == 2);
    }
    assert forall|k: int| 0 <= k < data_src_name().len() implies !is_ws(
        #[trigger] data_src_name()[k],
    ) && data_src_name()[k] != '=' by {
        assert(0 <= k < 8);
    }
}

/// Where the characters of ` name="value"` stand when it is written at `p` in `a`.
proof fn lemma_attr_text_at(a: Seq<char>, p: int, n: Seq<char>, v: Seq<char>)
    requires
        0 <= p,
        p + attr_text(n, v).len() <= a.len(),
        a.subrange(p, p + attr_text(n, v).len()) == attr_text(n, v),
    ensures
        a[p] == ' ',
        forall|k: int| 0 <= k < n.len() ==> a[p + 1 + k] == n[k],
        a[p + 1 + n.len()] == '=',
        a[p + 2 + n.len()] == '"',
        forall|k: int| 0 <= k < v.len() ==> a[p + 3 + n.len() + k] == v[k],
        a[p + 3 + n.len() + v.len()] == '"',
        attr_text(n, v).len() == n.len() + v.len() + 4,
{
    let seg = attr_text(n, v);
    assert(a[p] == seg[0]);
    assert forall|k: int| 0 <= k < n.len() implies a[p + 1 + k] == n[k] by {
        assert(a[p + 1 + k] == seg[1 + k]);
    }
    assert(a[p + 1 + n.len()] == seg[1 + n.len() as int]);
    assert(a[p + 2 + n.len()] == seg[2 + n.len() as int]);
    assert forall|k: int| 0 <= k < v.len() implies a[p + 3 + n.len() + k] == v[k] by {
        assert(a[p + 3 + n.len() + k] == seg[3 + n.len() + k]);
    }
    assert(a[p + 3 + n.len() + v.len()] == seg[3 + n.len() as int + v.len()]);
}

/// ` name="value"` written at `p` is one match of attribute `name` when it is
/// named `name`, and holds no match of `name` otherwise.
proof fn lemma_attr_segment(a: Seq<char>, name: Seq<char>, p: int, n: Seq<char>, v: Seq<char>)
    requires
        0 <= p,
        p + attr_text(n, v).len() <= a.len(),
        a.subrange(p, p + attr_text(n, v).len()) == attr_text(n, v),
        plain_name(name),
        plain_name(n),
        plain_value(v),
    ensures
        n == name ==> attr_match_at(a, name, p) == Some(
            (p + 3 + n.len(), p + 3 + n.len() + v.len(), p + attr_text(n, v).len()),
        ),
        n != name ==> forall|i: int|
            p <= i < p + attr_text(n, v).len() ==> attr_match_at(a, name, i) is None,
{
    lemma_attr_text_at(a, p, n, v);
    let q = p + attr_text(n, v).len();
    assert(is_ws(' ') && !is_ws('=') && !is_ws('"'));
    assert(!occurs_at(a, name, 0) || p != 0) by {
        if p == 0 && occurs_at(a, name, 0) {
            assert(a.subrange(0, name.len() as int)[0] == a[0]);
        }
    }
    if n == name {
        assert(a.subrange(p + 1, p + 1 + name.len()) =~= name);
        let k0 = p + 1 + n.len();
        lemma_skip_ws_is(a, k0, k0);
        lemma_skip_ws_is(a, k0 + 1, k0 + 1);
        let r = k0 + 1;
        assert forall|i: int| r + 1 <= i < r + 1 + v.len() implies a[i] != '"' by {
            assert(a[p + 3 + n.len() + (i - r - 1)] == v[i - r - 1]);
        }
        lemma_first_from_is(a, r + 1, '"', r + 1 + v.len());
        assert(attr_tail(a, name, p + 1) == Some((r + 1, r + 1 + v.len(), r + 2 + v.len())));
    } else {
        assert(attr_tail(a, name, p + 1) is None) by {
            if occurs_at(a, name, p + 1) {
                let w = a.subrange(p + 1, p + 1 + name.len());
                if name.len() > n.len() {
                    assert(w[n.len() as int] == a[p + 1 + n.len()]);
                    assert(name[n.len() as int] == '=');
                } else if name.len() == n.len() {
                    assert forall|k: int| 0 <= k < n.len() implies name[k] == n[k] by {
                        assert(w[k] == a[p + 1 + k]);
                    }
                    assert(name =~= n);
                } else {
                    let k1 = p + 1 + name.len();
                    assert(a[k1] == n[name.len() as int]);
                    lemma_skip_ws_is(a, k1, k1);
                }
            }
        }
        assert forall|i: int| p <= i < q implies attr_match_at(a, name, i) is None by {
            if i > p {
                let j = i - p - 1;
                if j < n.len() {
                    assert(a[p + 1 + j] == n[j]);
                } else if j == n.len() {
                } else if j == n.len() + 1 {
                } else if j < n.len() + 2 + v.len() {
                    assert(a[p + 3 + n.len() + (j - n.len() - 2)] == v[j - n.len() - 2]);
                }
                assert(!is_ws(a[i]));
            }
        }
    }
}

proof fn lemma_remove_verbatim(a: Seq<char>, name: Seq<char>, i: int, j: int)
    requires
        0 <= i <= j <= a.len(),
        forall|k: int| i <= k < j ==> attr_match_at(a, name, k) is None,
    ensures
        remove_attr_from(a, name, i) == a.subrange(i, j) + remove_attr_from(a, name, j),
        find_attr_from(a, name, i) == find_attr_from(a, name, j),
    decreases j - i,
{
    if i < j {
        lemma_remove_verbatim(a, name, i + 1, j);
        assert(seq![a[i]] + a.subrange(i + 1, j) =~= a.subrange(i, j));
        assert(seq![a[i]] + (a.subrange(i + 1, j) + remove_attr_from(a, name, j)) =~= a.subrange(i, j)
            + remove_attr_from(a, name, j));
    } else {
        assert(a.subrange(i, j) =~= Seq::<char>::empty());
        assert(a.subrange(i, j) + remove_attr_from(a, name, j) =~= remove_attr_from(a, name, j));
    }
}

proof fn lemma_attrs_text_cons(x: (Seq<char>, Seq<char>), rest: Seq<(Seq<char>, Seq<char>)>)
    ensures
        attrs_text(seq![x] + rest) == attr_text(x.0, x.1) + attrs_text(rest),
{
    let l = seq![x] + rest;
    assert(l[0] == x);
    assert(l.drop_first() =~= rest);
}

proof fn lemma_without_plain(
    items: Seq<(Seq<char>, Seq<char>)>,
    name: Seq<char>,
    other: Seq<char>,
)
    requires
        plain_attrs(items),
    ensures
        plain_attrs(without_attr(items, name)),
        first_attr_value(without_attr(items, name), name) is None,
        first_attr_value(items, other) is None ==> first_attr_value(
            without_attr(items, name),
            other,
        ) is None,
    decreases items.len(),
{
    if items.len() > 0 {
        let rest = items.drop_first();
        assert forall|j: int| 0 <= j < rest.len() implies plain_name((#[trigger] rest[j]).0)
            && plain_value(rest[j].1) by {
            assert(rest[j] == items[j + 1]);
        }
        lemma_without_plain(rest, name, other);
        if items[0].0 != name {
            let w = seq![items[0]] + without_attr(rest, name);
            let wr = without_attr(rest, name);
            assert(w[0] == items[0]);
            assert(w.drop_first() =~= wr);
            assert forall|j: int| 0 <= j < w.len() implies plain_name((#[trigger] w[j]).0)
                && plain_value(w[j].1) by {
                if j > 0 {
                    assert(w[j] == wr[j - 1]);
                }
            }
        }
    }
}

/// Over an attribute list written from `p` to the end of `a`, deleting the
/// matches of `name` deletes exactly the attributes named `name`, and the
/// leftmost match of `name` is the first attribute so named.
proof fn lemma_attr_list(a: Seq<char>, name: Seq<char>, p: int, items: Seq<(Seq<char>, Seq<char>)>)
    requires
        0 <= p <= a.len(),
        a.subrange(p, a.len() as int) == attrs_text(items),
        plain_name(name),
        plain_attrs(items),
    ensures
        remove_attr_from(a, name, p) == attrs_text(without_attr(items, name)),
        find_attr_from(a, name, p) == first_attr_value(items, name),
    decreases items.len(),
{
    if items.len() == 0 {
        assert(a.subrange(p, a.len() as int).len() == 0);
    } else {
        let n = items[0].0;
        let v = items[0].1;
        let seg = attr_text(n, v);
        let rest = items.drop_first();
        let q = p + seg.len();
        let whole = a.subrange(p, a.len() as int);
        assert(whole == seg + attrs_text(rest));
        assert(a.subrange(p, q) =~= whole.subrange(0, seg.len() as int));
        assert(a.subrange(p, q) =~= seg);
        assert(a.subrange(q, a.len() as int) =~= whole.subrange(seg.len() as int, whole.len() as int));
        assert(a.subrange(q, a.len() as int) =~= attrs_text(rest));
        assert(plain_name(items[0].0) && plain_value(items[0].1));
        assert forall|j: int| 0 <= j < rest.len() implies plain_name((#[trigger] rest[j]).0)
            && plain_value(rest[j].1) by {
            assert(rest[j] == items[j + 1]);
        }
        lemma_attr_list(a, name, q, rest);
        lemma_attr_segment(a, name, p, n, v);
        lemma_attr_text_at(a, p, n, v);
        if n == name {
            assert(a.subrange(p + 3 + n.len(), p + 3 + n.len() + v.len()) =~= v);
        } else {
            lemma_remove_verbatim(a, name, p, q);
            lemma_attrs_text_cons(items[0], without_attr(rest, name));
        }
    }
}

/// The `<img>` repair on a plain attribute list (names without whitespace or
/// `=`, values without whitespace or `"`). When the first `data-src` value is
/// non-empty, every `src` and every `data-src` attribute is dropped, whatever
/// its value, the other attributes stay in order, and a single `src` is
/// appended carrying that value, so the tag then holds no other `src` or
/// `data-src`. Otherwise the tag is left as it was.
pub proof fn law_rewrite_img_on_attr_list(items: Seq<(Seq<char>, Seq<char>)>)
    requires
        plain_attrs(items),
    ensures
        ({
            let kept = without_attr(without_attr(items, src_name()), data_src_name());
            match first_attr_value(items, data_src_name()) {
                Some(url) => if url.len() > 0 {
                    &&& rewrite_img_spec(attrs_text(items)) == img_open() + attrs_text(kept) + seq![
                        ' ',
                        's',
                        'r',
                        'c',
                        '=',
                        '"',
                    ] + url + seq!['"', '>']
                    &&& find_attr_from(attrs_text(kept), src_name(), 0) is None
                    &&& find_attr_from(attrs_text(kept), data_src_name(), 0) is None
                } else {
                    rewrite_img_spec(attrs_text(items)) == img_open() + attrs_text(items) + seq!['>']
                },
                None => rewrite_img_spec(attrs_text(items)) == img_open() + attrs_text(items) + seq![
                    '>',
                ],
            }
        }),
{
    lemma_plain_names();
    let a = attrs_text(items);
    assert(a.subrange(0, a.len() as int) =~= a);
    lemma_attr_list(a, data_src_name(), 0, items);
    assert(find_attr_from(a, data_src_name(), 0) == first_attr_value(items, data_src_name()));
    match first_attr_value(items, data_src_name()) {
        Some(url) => {
            if url.len() > 0 {
                assert(extract_attr_spec(a, data_src_name()) == Some(url));
                lemma_attr_list(a, src_name(), 0, items);
                let w1 = without_attr(items, src_name());
                assert(remove_attr_spec(a, src_name()) == attrs_text(w1));
                lemma_without_plain(items, src_name(), data_src_name());
                let a1 = attrs_text(w1);
                assert(a1.subrange(0, a1.len() as int) =~= a1);
                lemma_attr_list(a1, data_src_name(), 0, w1);
                let kept = without_attr(w1, data_src_name());
                assert(remove_attr_spec(a1, data_src_name()) == attrs_text(kept));
                lemma_without_plain(w1, data_src_name(), src_name());
                let k = attrs_text(kept);
                assert(k.subrange(0, k.len() as int) =~= k);
                lemma_attr_list(k, src_name(), 0, kept);
                lemma_attr_list(k, data_src_name(), 0, kept);
            } else {
                assert(extract_attr_spec(a, data_src_name()) is None);
            }
        },
        None => {
            assert(extract_attr_spec(a, data_src_name()) is None);
        },
    }
}

} // verus!
