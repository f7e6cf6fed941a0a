//! Shared helpers that read values out of a parsed HTML document.
use vstd::prelude::*;
use crate::html::{HtmlDocument, select_attr_result, select_inner_html_result, select_text_result};
use crate::parser::{lemma_skip_ws_bounds, skip_ws, skip_ws_from};
use crate::strs::{chars_of, extend_chars, is_whitespace, is_ws, slice_chars, string_of, trim, trim_str};

verus! {

/// First index at or after `from` holding whitespace, or `s.len()`.
pub open spec fn word_end_from(s: Seq<char>, from: int) -> int
    decreases s.len() - from,
{
    if from < 0 || from >= s.len() {
        s.len() as int
    } else if is_ws(s[from]) {
        from
    } else {
        word_end_from(s, from + 1)
    }
}

pub proof fn lemma_word_end_bounds(s: Seq<char>, from: int)
    requires
        0 <= from,
    ensures
        from <= word_end_from(s, from) <= s.len() || word_end_from(s, from) == s.len(),
        word_end_from(s, from) <= s.len(),
        from < s.len() && !is_ws(s[from]) ==> from < word_end_from(s, from),
    decreases s.len() - from,
{
    if from < s.len() && !is_ws(s[from]) {
        lemma_word_end_bounds(s, from + 1);
    }
}

proof fn lemma_word_end_is(s: Seq<char>, from: int, k: int)
    requires
        0 <= from <= k <= s.len(),
        forall|i: int| from <= i < k ==> !is_ws(#[trigger] s[i]),
        k == s.len() || is_ws(s[k]),
    ensures
        word_end_from(s, from) == k,
    decreases k - from,
{
    if from < k {
        lemma_word_end_is(s, from + 1, k);
    }
}

/// `a` and `b` joined by one space, the space left out when either is empty.
pub open spec fn join_nonempty(a: Seq<char>, b: Seq<char>) -> Seq<char> {
    if a.len() == 0 {
        b
    } else if b.len() == 0 {
        a
    } else {
        a + seq![' '] + b
    }
}

/// The words of `s` from `i` on (maximal runs of non-whitespace) joined by single spaces.
pub open spec fn norm_ws_from(s: Seq<char>, i: int) -> Seq<char>
    decreases s.len() - i,
{
    if i < 0 {
        Seq::<char>::empty()
    } else {
        let j = skip_ws_from(s, i);
        proof {
            lemma_skip_ws_bounds(s, i);
        }
        if j >= s.len() || j < i {
            Seq::<char>::empty()
        } else {
            let k = word_end_from(s, j);
            proof {
                lemma_skip_ws_not_ws(s, i);
                lemma_word_end_bounds(s, j);
            }
            join_nonempty(s.subrange(j, k), norm_ws_from(s, k))
        }
    }
}

pub proof fn lemma_skip_ws_not_ws(s: Seq<char>, from: int)
    requires
        0 <= from,
    ensures
        skip_ws_from(s, from) < s.len() ==> !is_ws(s[skip_ws_from(s, from)]),
    decreases s.len() - from,
{
    if from < s.len() && is_ws(s[from]) {
        lemma_skip_ws_not_ws(s, from + 1);
    }
}

/// The words of `s` joined by single spaces
/// (`s.split_whitespace().collect::<Vec<_>>().join(" ")`).
pub open spec fn norm_ws(s: Seq<char>) -> Seq<char> {
    norm_ws_from(s, 0)
}

proof fn lemma_join_assoc(a: Seq<char>, w: Seq<char>, r: Seq<char>)
    requires
        w.len() > 0,
    ensures
        join_nonempty(a, join_nonempty(w, r)) == join_nonempty(join_nonempty(a, w), r),
{
    if a.len() > 0 && r.len() > 0 {
        assert(a + seq![' '] + (w + seq![' '] + r) =~= (a + seq![' '] + w) + seq![' '] + r);
    }
}

/// The words of `s` joined by single spaces.
pub fn normalize_whitespace(s: &[char]) -> (r: Vec<char>)
    ensures
        r@ == norm_ws(s@),
{
    let n = s.len();
    let mut out: Vec<char> = Vec::new();
    let mut i: usize = 0;
    while i < n
        invariant
            n == s@.len(),
            i <= n,
            join_nonempty(out@, norm_ws_from(s@, i as int)) == norm_ws(s@),
        decreases n - i,
    {
        let j = skip_ws(s, i);
        if j == n {
            assert(norm_ws_from(s@, i as int) =~= Seq::<char>::empty());
            assert(norm_ws_from(s@, n as int) =~= Seq::<char>::empty()) by {
                lemma_skip_ws_bounds(s@, n as int);
            }
            i = n;
        } else {
            let mut k = j;
            while k < n && !is_whitespace(s[k])
                invariant
                    j <= k <= n == s@.len(),
                    forall|x: int| j <= x < k ==> !is_ws(#[trigger] s@[x]),
                decreases n - k,
            {
                k = k + 1;
            }
            proof {
                lemma_word_end_is(s@, j as int, k as int);
                lemma_skip_ws_not_ws(s@, i as int);
            }
            let word = slice_chars(s, j, k);
            assert(word@.len() > 0);
            proof {
                lemma_join_assoc(out@, word@, norm_ws_from(s@, k as int));
            }
            let ghost before = out@;
            if out.len() > 0 {
                out.push(' ');
            }
            extend_chars(&mut out, &word);
            assert(out@ =~= join_nonempty(before, word@));
            i = k;
        }
    }
    assert(norm_ws_from(s@, i as int) =~= Seq::<char>::empty()) by {
        lemma_skip_ws_bounds(s@, i as int);
    }
    out
}

/// `meta[property="P"], meta[name="P"]`.
pub open spec fn meta_selector(p: Seq<char>) -> Seq<char> {
    "meta[property=\""@ + p + "\"], meta[name=\""@ + p + "\"]"@
}

/// The trimmed, non-empty `content` of the first `<meta>` whose `property`
/// or `name` is `p`.
pub open spec fn pick_meta_spec(src: Seq<char>, p: Seq<char>) -> Option<Seq<char>> {
    match select_attr_result(src, meta_selector(p), "content"@) {
        Some(vals) => if vals.len() > 0 {
            match vals[0] {
                Some(v) => if trim(v).len() > 0 {
                    Some(trim(v))
                } else {
                    None
                },
                None => None,
            }
        } else {
            None
        },
        None => None,
    }
}

/// The whitespace-normalized, non-empty text of the first element matching `sel`.
pub open spec fn pick_text_spec(src: Seq<char>, sel: Seq<char>) -> Option<Seq<char>> {
    match select_text_result(src, sel) {
        Some(ts) => if ts.len() > 0 && norm_ws(ts[0]).len() > 0 {
            Some(norm_ws(ts[0]))
        } else {
            None
        },
        None => None,
    }
}

/// The trimmed text of the first element matching `sel`.
pub open spec fn first_text_trimmed_spec(src: Seq<char>, sel: Seq<char>) -> Option<Seq<char>> {
    match select_text_result(src, sel) {
        Some(ts) => if ts.len() > 0 {
            Some(trim(ts[0]))
        } else {
            None
        },
        None => None,
    }
}

/// The inner HTML of the first element matching `sel`.
pub open spec fn pick_html_spec(src: Seq<char>, sel: Seq<char>) -> Option<Seq<char>> {
    match select_inner_html_result(src, sel) {
        Some(hs) => if hs.len() > 0 {
            Some(hs[0])
        } else {
            None
        },
        None => None,
    }
}

/// The trimmed, non-empty `content` of the first `<meta>` whose `property`
/// or `name` is `property`.
pub fn pick_meta(doc: &HtmlDocument, property: &str) -> (r: Option<String>)
    ensures
        match r {
            Some(v) => pick_meta_spec(doc@, property@) == Some(v@),
            None => pick_meta_spec(doc@, property@) is None,
        },
{
    let mut sel = crate::strs::string_from("meta[property=\"");
    sel.append(property);
    sel.append("\"], meta[name=\"");
    sel.append(property);
    sel.append("\"]");
    assert(sel@ =~= meta_selector(property@));
    match doc.select_attr(sel.as_str(), "content") {
        Some(vals) => {
            if vals.len() > 0 {
                assert(vals.deep_view()[0] == vals@[0].deep_view());
                match &vals[0] {
                    Some(v) => {
                        let t = trim_str(v.as_str());
                        if t.as_str().is_empty() {
                            None
                        } else {
                            Some(t)
                        }
                    },
                    None => None,
                }
            } else {
                None
            }
        },
        None => None,
    }
}

/// The whitespace-normalized, non-empty text of the first element matching `selector`.
pub fn pick_text(doc: &HtmlDocument, selector: &str) -> (r: Option<String>)
    ensures
        match r {
            Some(v) => pick_text_spec(doc@, selector@) == Some(v@),
            None => pick_text_spec(doc@, selector@) is None,
        },
{
    match doc.select_text(selector) {
        Some(ts) => {
            if ts.len() > 0 {
                assert(ts.deep_view()[0] == ts@[0]@);
                let cs = chars_of(ts[0].as_str());
                let n = normalize_whitespace(&cs);
                if n.len() > 0 {
                    Some(string_of(&n))
                } else {
                    None
                }
            } else {
                None
            }
        },
        None => None,
    }
}

/// The trimmed text of the first element matching `selector`.
pub fn first_text_trimmed(doc: &HtmlDocument, selector: &str) -> (r: Option<String>)
    ensures
        match r {
            Some(v) => first_text_trimmed_spec(doc@, selector@) == Some(v@),
            None => first_text_trimmed_spec(doc@, selector@) is None,
        },
{
    match doc.select_text(selector) {
        Some(ts) => {
            if ts.len() > 0 {
                assert(ts.deep_view()[0] == ts@[0]@);
                Some(trim_str(ts[0].as_str()))
            } else {
                None
            }
        },
        None => None,
    }
}

/// The inner HTML of the first element matching `selector`.
pub fn pick_html(doc: &HtmlDocument, selector: &str) -> (r: Option<String>)
    ensures
        match r {
            Some(v) => pick_html_spec(doc@, selector@) == Some(v@),
            None => pick_html_spec(doc@, selector@) is None,
        },
{
    match doc.select_inner_html(selector) {
        Some(hs) => {
            if hs.len() > 0 {
                assert(hs.deep_view()[0] == hs@[0]@);
                Some(hs[0].clone())
            } else {
                None
            }
        },
        None => None,
    }
}

} // verus!
