//! `url-md md <URL>`: exit codes and automatic output file names.
use vstd::prelude::*;
use crate::adapter::{FmValue, FmView, MarkdownDoc};
use crate::error::{FetchError, PipelineError};
use crate::numfmt::{hex, push_digits};
use crate::parser::first_from;
use crate::strmap::map_get;
use crate::strs::{
    all_ascii, ascii_lower, is_ascii_alnum,
    char_count_at_bytes, chars_of, extend_chars, lemma_char_count_at_bytes, slice_chars, str_to_lowercase,
    string_from, string_of, to_lowercase_result, utf8_bytes_len, utf8_len, utf8_len_of,
};
use crate::weburl::{Url, url_parse_result};

verus! {

/// Arguments of the `md` subcommand. `output` is a file or directory path;
/// `timeout` is in seconds.
#[derive(Debug)]
pub struct Args {
    pub url: String,
    pub output: Option<String>,
    pub timeout: u64,
    pub quiet: bool,
    pub verbose: bool,
    /// Where to download images to, instead of `assets/` beside the output.
    pub assets: Option<String>,
    /// Keep image links remote.
    pub no_assets: bool,
}

/// Where the images of a saved document go.
#[derive(Debug, PartialEq, Eq)]
pub enum AssetsDir {
    /// Images stay remote: printing to stdout, or `--no-assets`.
    Skip,
    /// The directory named by `--assets`.
    Custom(String),
    /// `assets/` in the directory of the output file.
    BesideOutput,
}

/// Where images go for these arguments: nowhere when the Markdown is
/// printed or `--no-assets` is given, else the `--assets` directory, else
/// `assets/` beside the output file.
pub fn assets_dir(args: &Args) -> (d: AssetsDir)
    ensures
        (args.output is None || args.no_assets) ==> d == AssetsDir::Skip,
        (args.output is Some && !args.no_assets) ==> match args.assets {
            Some(a) => d matches AssetsDir::Custom(c) && c@ == a@,
            None => d == AssetsDir::BesideOutput,
        },
{
    if args.output.is_none() || args.no_assets {
        AssetsDir::Skip
    } else {
        match &args.assets {
            Some(a) => AssetsDir::Custom(string_from(a.as_str())),
            None => AssetsDir::BesideOutput,
        }
    }
}

/// The process exit code for a pipeline error: 10 network, 11 blocked by
/// anti-bot measures, 12 paywall, 13 login required, 20 no adapter or
/// extraction failed, 30 invalid URL, 99 internal.
pub open spec fn exit_code_spec(e: PipelineError) -> u8 {
    match e {
        PipelineError::InvalidUrl(_) => 30,
        PipelineError::AdapterNotFound { .. } => 20,
        PipelineError::Paywalled => 12,
        PipelineError::AuthRequired { .. } => 13,
        PipelineError::Fetch(FetchError::Blocked { .. }) => 11,
        PipelineError::Fetch(_) => 10,
        PipelineError::ExtractFailed { .. } => 20,
        PipelineError::Internal(_) => 99,
    }
}

/// The process exit code for a pipeline error.
pub fn error_to_exit_code(e: &PipelineError) -> (code: u8)
    ensures
        code == exit_code_spec(*e),
{
    match e {
        PipelineError::InvalidUrl(_) => 30,
        PipelineError::AdapterNotFound { .. } => 20,
        PipelineError::Paywalled => 12,
        PipelineError::AuthRequired { .. } => 13,
        PipelineError::Fetch(FetchError::Blocked { .. }) => 11,
        PipelineError::Fetch(_) => 10,
        PipelineError::ExtractFailed { .. } => 20,
        PipelineError::Internal(_) => 99,
    }
}

// ---------------------------------------------------------------------------
// Slugs
// ---------------------------------------------------------------------------

/// What `char::is_alphanumeric` answers for `c` (Unicode Alphabetic or Numeric).
pub uninterp spec fn char_is_alphanumeric_result(c: char) -> bool;

/// Calls `char::is_alphanumeric` (Unicode `Alphabetic` or `Numeric`).
/// Claimed: the answer depends on `c` alone, and on an ASCII character it
/// is true exactly for `A`-`Z`, `a`-`z` and `0`-`9`.
#[verifier::external_body]
fn char_is_alphanumeric(c: char) -> (b: bool)
    ensures
        b == char_is_alphanumeric_result(c),
        (c as u32) < 128 ==> (b == is_ascii_alnum(c)),
{
    c.is_alphanumeric()
}

/// Every character that is not alphanumeric replaced by `-`.
pub open spec fn dash_non_alnum(s: Seq<char>) -> Seq<char> {
    Seq::new(s.len(), |i: int| if char_is_alphanumeric_result(s[i]) {
        s[i]
    } else {
        '-'
    })
}

/// Leading `c`s removed.
pub open spec fn strip_start_char(s: Seq<char>, c: char) -> Seq<char>
    decreases s.len(),
{
    if s.len() > 0 && s[0] == c {
        strip_start_char(s.drop_first(), c)
    } else {
        s
    }
}

/// Trailing `c`s removed.
pub open spec fn strip_end_char(s: Seq<char>, c: char) -> Seq<char>
    decreases s.len(),
{
    if s.len() > 0 && s.last() == c {
        strip_end_char(s.drop_last(), c)
    } else {
        s
    }
}

/// `c`s removed at both ends (`str::trim_matches(c)`).
pub open spec fn trim_char(s: Seq<char>, c: char) -> Seq<char> {
    strip_end_char(strip_start_char(s, c), c)
}

/// First index at or after `from` not holding `-`, or `s.len()`.
pub open spec fn skip_dashes_from(s: Seq<char>, from: int) -> int
    decreases s.len() - from,
{
    if from < 0 || from >= s.len() {
        s.len() as int
    } else if s[from] == '-' {
        skip_dashes_from(s, from + 1)
    } else {
        from
    }
}

/// `a` and `b` joined by `-`, the `-` left out when either is empty.
pub open spec fn join_dash(a: Seq<char>, b: Seq<char>) -> Seq<char> {
    if a.len() == 0 {
        b
    } else if b.len() == 0 {
        a
    } else {
        a + seq!['-'] + b
    }
}

pub proof fn lemma_skip_dashes(s: Seq<char>, from: int)
    requires
        0 <= from,
    ensures
        from <= skip_dashes_from(s, from) <= s.len() || skip_dashes_from(s, from) == s.len(),
        skip_dashes_from(s, from) <= s.len(),
        skip_dashes_from(s, from) < s.len() ==> s[skip_dashes_from(s, from)] != '-',
    decreases s.len() - from,
{
    if from < s.len() && s[from] == '-' {
        lemma_skip_dashes(s, from + 1);
    }
}

/// The non-empty `-`-separated parts of `s` from `i` on, joined by `-`.
pub open spec fn collapse_dashes_from(s: Seq<char>, i: int) -> Seq<char>
    decreases s.len() - i,
{
    if i < 0 {
        Seq::<char>::empty()
    } else {
        let j = skip_dashes_from(s, i);
        proof {
            lemma_skip_dashes(s, i);
        }
        if j >= s.len() || j < i {
            Seq::<char>::empty()
        } else {
            let k = first_from(s, j, '-');
            proof {
                crate::parser::lemma_first_from_bounds(s, j, '-');
            }
            join_dash(s.subrange(j, k), collapse_dashes_from(s, k))
        }
    }
}

/// The slug of `t` after the common steps: `untitled` when empty, cut to
/// its first 60 bytes when longer; `None` when byte 60 falls inside a
/// character, where cutting panics.
pub open spec fn finish_slug(t: Seq<char>) -> Option<Seq<char>> {
    if t.len() == 0 {
        Some("untitled"@)
    } else if utf8_bytes_len(t) > 60 {
        match char_count_at_bytes(t, 0, 0, 60) {
            Some(j) => Some(t.take(j)),
            None => None,
        }
    } else {
        Some(t)
    }
}

/// The file-name slug of a title: non-alphanumeric characters become `-`,
/// `-` is trimmed from both ends, the text is lowercased, runs of `-`
/// collapse to one; an empty slug is `untitled` and a slug longer than 60
/// bytes keeps its first 60 bytes. `None` when byte 60 falls inside a
/// multi-byte character, where no such cut exists.
pub open spec fn slugify_spec(s: Seq<char>) -> Option<Seq<char>> {
    let lowered = to_lowercase_result(trim_char(dash_non_alnum(s), '-'));
    finish_slug(collapse_dashes_from(lowered, 0))
}

fn dash_non_alphanumeric(s: &[char]) -> (r: Vec<char>)
    ensures
        r@ == dash_non_alnum(s@),
        forall|i: int|
            0 <= i < s@.len() && (s@[i] as u32) < 128 ==> (char_is_alphanumeric_result(
                #[trigger] s@[i],
            ) == is_ascii_alnum(s@[i])),
{
    let n = s.len();
    let mut r: Vec<char> = Vec::new();
    for i in 0..n
        invariant
            n == s@.len(),
            r@ == dash_non_alnum(s@).take(i as int),
            forall|j: int|
                0 <= j < i && (s@[j] as u32) < 128 ==> (char_is_alphanumeric_result(
                    #[trigger] s@[j],
                ) == is_ascii_alnum(s@[j])),
    {
        let c = s[i];
        r.push(if char_is_alphanumeric(c) {
            c
        } else {
            '-'
        });
        assert(r@ =~= dash_non_alnum(s@).take(i + 1));
    }
    assert(dash_non_alnum(s@).take(n as int) =~= dash_non_alnum(s@));
    r
}

proof fn lemma_strip_start_is(s: Seq<char>, c: char, k: int)
    requires
        0 <= k <= s.len(),
        forall|i: int| 0 <= i < k ==> s[i] == c,
        k == s.len() || s[k] != c,
    ensures
        strip_start_char(s, c) == s.subrange(k, s.len() as int),
    decreases k,
{
    if k == 0 {
        assert(s.subrange(0, s.len() as int) =~= s);
    } else {
        let t = s.drop_first();
        assert forall|i: int| 0 <= i < k - 1 implies t[i] == c by {
            assert(t[i] == s[i + 1]);
        }
        lemma_strip_start_is(t, c, k - 1);
        assert(t.subrange(k - 1, t.len() as int) =~= s.subrange(k, s.len() as int));
    }
}

proof fn lemma_strip_end_is(s: Seq<char>, c: char, k: int)
    requires
        0 <= k <= s.len(),
        forall|i: int| k <= i < s.len() ==> s[i] == c,
        k == 0 || s[k - 1] != c,
    ensures
        strip_end_char(s, c) == s.subrange(0, k),
    decreases s.len() - k,
{
    if k == s.len() {
        assert(s.subrange(0, k) =~= s);
    } else {
        let t = s.drop_last();
        assert forall|i: int| k <= i < t.len() implies t[i] == c by {
            assert(t[i] == s[i]);
        }
        lemma_strip_end_is(t, c, k);
        assert(t.subrange(0, k) =~= s.subrange(0, k));
    }
}

fn trim_dashes(s: &[char]) -> (r: Vec<char>)
    ensures
        r@ == trim_char(s@, '-'),
{
    let n = s.len();
    let mut a: usize = 0;
    while a < n && s[a] == '-'
        invariant
            a <= n == s@.len(),
            forall|i: int| 0 <= i < a ==> s@[i] == '-',
        decreases n - a,
    {
        a = a + 1;
    }
    proof {
        lemma_strip_start_is(s@, '-', a as int);
    }
    let t = slice_chars(s, a, n);
    let m = t.len();
    let mut b: usize = m;
    while b > 0 && t[b - 1] == '-'
        invariant
            b <= m == t@.len(),
            forall|i: int| b <= i < m ==> t@[i] == '-',
        decreases b,
    {
        b = b - 1;
    }
    proof {
        lemma_strip_end_is(t@, '-', b as int);
    }
    slice_chars(&t, 0, b)
}

proof fn lemma_skip_dashes_is(s: Seq<char>, from: int, k: int)
    requires
        0 <= from <= k <= s.len(),
        forall|i: int| from <= i < k ==> s[i] == '-',
        k == s.len() || s[k] != '-',
    ensures
        skip_dashes_from(s, from) == k,
    decreases k - from,
{
    if from < k {
        lemma_skip_dashes_is(s, from + 1, k);
    }
}

proof fn lemma_join_dash_assoc(a: Seq<char>, w: Seq<char>, r: Seq<char>)
    requires
        w.len() > 0,
    ensures
        join_dash(a, join_dash(w, r)) == join_dash(join_dash(a, w), r),
{
    if a.len() > 0 && r.len() > 0 {
        assert(a + seq!['-'] + (w + seq!['-'] + r) =~= (a + seq!['-'] + w) + seq!['-'] + r);
    }
}

fn collapse_dashes(s: &[char]) -> (r: Vec<char>)
    ensures
        r@ == collapse_dashes_from(s@, 0),
{
    let n = s.len();
    let mut out: Vec<char> = Vec::new();
    let mut i: usize = 0;
    while i < n
        invariant
            n == s@.len(),
            i <= n,
            join_dash(out@, collapse_dashes_from(s@, i as int)) == collapse_dashes_from(s@, 0),
        decreases n - i,
    {
        let mut j = i;
        while j < n && s[j] == '-'
            invariant
                i <= j <= n == s@.len(),
                forall|x: int| i <= x < j ==> s@[x] == '-',
            decreases n - j,
        {
            j = j + 1;
        }
        proof {
            lemma_skip_dashes_is(s@, i as int, j as int);
        }
        if j == n {
            assert(collapse_dashes_from(s@, i as int) =~= Seq::<char>::empty());
            assert(collapse_dashes_from(s@, n as int) =~= Seq::<char>::empty()) by {
                lemma_skip_dashes(s@, n as int);
            }
            i = n;
        } else {
            let k = crate::parser::find_first_from(s, j, '-');
            proof {
                crate::parser::lemma_first_from_bounds(s@, j as int, '-');
            }
            let word = slice_chars(s, j, k);
            assert(word@.len() > 0);
            proof {
                lemma_join_dash_assoc(out@, word@, collapse_dashes_from(s@, k as int));
            }
            let ghost before = out@;
            if out.len() > 0 {
                out.push('-');
            }
            extend_chars(&mut out, &word);
            assert(out@ =~= join_dash(before, word@));
            i = k;
        }
    }
    assert(collapse_dashes_from(s@, i as int) =~= Seq::<char>::empty()) by {
        lemma_skip_dashes(s@, i as int);
    }
    out
}

fn finish_slug_exec(t: Vec<char>) -> (r: Option<Vec<char>>)
    ensures
        match r {
            Some(v) => finish_slug(t@) == Some(v@),
            None => finish_slug(t@) is None,
        },
{
    let n = t.len();
    if n == 0 {
        let v = chars_of("untitled");
        return Some(v);
    }
    let mut acc: u64 = 0;
    let mut i: usize = 0;
    while i < n && acc <= 60
        invariant
            n == t@.len(),
            i <= n,
            acc == utf8_bytes_len(t@.take(i as int)),
            acc <= 64,
        decreases n - i,
    {
        let ghost prev = t@.take(i as int);
        assert(t@.take(i + 1).drop_last() =~= prev);
        acc = acc + utf8_len_of(t[i]);
        i = i + 1;
    }
    if acc <= 60 {
        assert(t@.take(n as int) =~= t@);
        return Some(t);
    }
    proof {
        lemma_bytes_len_prefix_le(t@, i as int);
    }
    let mut j: usize = 0;
    let mut b: u64 = 0;
    while j < n && b < 60
        invariant
            n == t@.len(),
            j <= n,
            b <= 63,
            char_count_at_bytes(t@, j as int, b as nat, 60) == char_count_at_bytes(t@, 0, 0, 60),
        decreases n - j,
    {
        b = b + utf8_len_of(t[j]);
        j = j + 1;
    }
    if b == 60 {
        Some(slice_chars(&t, 0, j))
    } else {
        None
    }
}

proof fn lemma_bytes_len_prefix_le(s: Seq<char>, i: int)
    requires
        0 <= i <= s.len(),
    ensures
        utf8_bytes_len(s.take(i)) <= utf8_bytes_len(s),
    decreases s.len() - i,
{
    if i < s.len() {
        lemma_bytes_len_prefix_le(s, i + 1);
        assert(s.take(i + 1).drop_last() =~= s.take(i));
    } else {
        assert(s.take(i) =~= s);
    }
}

/// A slug is never empty and never longer than 60 bytes.
pub proof fn law_slug_is_short_and_nonempty(title: Seq<char>)
    ensures
        slugify_spec(title) matches Some(v) ==> v.len() > 0 && utf8_bytes_len(v) <= 60,
{
    let t = collapse_dashes_from(to_lowercase_result(trim_char(dash_non_alnum(title), '-')), 0);
    if t.len() == 0 {
        reveal_strlit("untitled");
        assert(utf8_bytes_len("untitled"@) == 8) by {
            reveal_with_fuel(utf8_bytes_len, 9);
        }
    } else if utf8_bytes_len(t) > 60 {
        if char_count_at_bytes(t, 0, 0, 60) is Some {
            lemma_char_count_at_bytes(t, 0, 0, 60);
            let j = char_count_at_bytes(t, 0, 0, 60)->0;
            assert(t.take(j) =~= t.subrange(0, j));
            if j == 0 {
                assert(t.subrange(0, 0) =~= Seq::<char>::empty());
            }
        }
    }
}

/// A character a slug of an ASCII title is made of: `a`-`z`, `0`-`9`, `-`.
pub open spec fn slug_char(c: char) -> bool {
    ('a' <= c <= 'z') || ('0' <= c <= '9') || c == '-'
}

/// Every character of `s` satisfies `p`.
pub open spec fn all_chars(s: Seq<char>, p: spec_fn(char) -> bool) -> bool {
    forall|i: int| 0 <= i < s.len() ==> p(#[trigger] s[i])
}

proof fn lemma_strip_start_chars(s: Seq<char>, c: char, p: spec_fn(char) -> bool)
    requires
        all_chars(s, p),
    ensures
        all_chars(strip_start_char(s, c), p),
    decreases s.len(),
{
    if s.len() > 0 && s[0] == c {
        assert forall|i: int| 0 <= i < s.drop_first().len() implies p(#[trigger] s.drop_first()[i]) by {
            assert(s.drop_first()[i] == s[i + 1]);
        }
        lemma_strip_start_chars(s.drop_first(), c, p);
    }
}

proof fn lemma_strip_end_chars(s: Seq<char>, c: char, p: spec_fn(char) -> bool)
    requires
        all_chars(s, p),
    ensures
        all_chars(strip_end_char(s, c), p),
    decreases s.len(),
{
    if s.len() > 0 && s.last() == c {
        assert forall|i: int| 0 <= i < s.drop_last().len() implies p(#[trigger] s.drop_last()[i]) by {
            assert(s.drop_last()[i] == s[i]);
        }
        lemma_strip_end_chars(s.drop_last(), c, p);
    }
}

proof fn lemma_collapse_chars(s: Seq<char>, i: int, p: spec_fn(char) -> bool)
    requires
        all_chars(s, p),
        p('-'),
    ensures
        all_chars(collapse_dashes_from(s, i), p),
    decreases s.len() - i,
{
    if i >= 0 {
        let j = skip_dashes_from(s, i);
        lemma_skip_dashes(s, i);
        if j < s.len() && j >= i {
            let k = first_from(s, j, '-');
            crate::parser::lemma_first_from_bounds(s, j, '-');
            lemma_collapse_chars(s, k, p);
            let w = s.subrange(j, k);
            let r = collapse_dashes_from(s, k);
            assert(all_chars(w, p)) by {
                assert forall|x: int| 0 <= x < w.len() implies p(#[trigger] w[x]) by {
                    assert(w[x] == s[j + x]);
                }
            }
            let out = join_dash(w, r);
            assert forall|x: int| 0 <= x < out.len() implies p(#[trigger] out[x]) by {
                if w.len() > 0 && r.len() > 0 {
                    if x < w.len() {
                        assert(out[x] == w[x]);
                    } else if x == w.len() {
                        assert(out[x] == '-');
                    } else {
                        assert(out[x] == r[x - w.len() - 1]);
                    }
                }
            }
        }
    }
}

/// The file-name slug of a title; `None` where cutting it to 60 bytes would
/// split a character.
pub fn slugify(s: &str) -> (r: Option<String>)
    ensures
        match r {
            Some(v) => slugify_spec(s@) == Some(v@),
            None => slugify_spec(s@) is None,
        },
        all_ascii(s@) ==> (r matches Some(v) ==> all_chars(v@, |c: char| slug_char(c))),
{
    let cs = chars_of(s);
    let mapped = dash_non_alphanumeric(&cs);
    let trimmed = trim_dashes(&mapped);
    let tstr = string_of(&trimmed);
    let lowered = str_to_lowercase(tstr.as_str());
    let lv = chars_of(lowered.as_str());
    let collapsed = collapse_dashes(&lv);
    let ghost cv = collapsed@;
    let out = finish_slug_exec(collapsed);
    proof {
        if all_ascii(s@) {
            let up = |c: char| is_ascii_alnum(c) || c == '-';
            let low = |c: char| slug_char(c);
            assert forall|i: int| 0 <= i < mapped@.len() implies up(#[trigger] mapped@[i]) by {
                assert(cs@[i] == s@[i]);
                assert((s@[i] as u32) < 128);
            }
            lemma_strip_start_chars(mapped@, '-', up);
            lemma_strip_end_chars(strip_start_char(mapped@, '-'), '-', up);
            assert(all_ascii(tstr@)) by {
                assert forall|i: int| 0 <= i < tstr@.len() implies (#[trigger] tstr@[i] as u32)
                    < 128 by {
                    assert(up(trimmed@[i]));
                }
            }
            assert forall|i: int| 0 <= i < lv@.len() implies low(#[trigger] lv@[i]) by {
                assert(up(trimmed@[i]));
                assert(lv@[i] == ascii_lower(tstr@[i]));
            }
            lemma_collapse_chars(lv@, 0, low);
            if out is Some {
                let v = out->0@;
                if cv.len() == 0 {
                    reveal_strlit("untitled");
                    assert forall|i: int| 0 <= i < v.len() implies low(#[trigger] v[i]) by {
                        assert("untitled"@[i] == v[i]);
                    }
                } else {
                    if utf8_bytes_len(cv) > 60 {
                        lemma_char_count_at_bytes(cv, 0, 0, 60);
                    }
                    assert(v.len() <= cv.len());
                    assert forall|i: int| 0 <= i < v.len() implies low(#[trigger] v[i]) by {
                        assert(v[i] == cv[i]);
                        assert(low(cv[i]));
                    }
                }
            }
        }
    }
    match out {
        Some(v) => Some(string_of(&v)),
        None => None,
    }
}

// ---------------------------------------------------------------------------
// Hash names and automatic file names
// ---------------------------------------------------------------------------

/// The djb2 hash of a byte string: start at 5381, then for each byte
/// `h = h * 33 + byte`, wrapping at 64 bits.
pub open spec fn djb2(bytes: Seq<u8>) -> u64
    decreases bytes.len(),
{
    if bytes.len() == 0 {
        5381
    } else {
        djb2(bytes.drop_last()).wrapping_mul(33).wrapping_add(bytes.last() as u64)
    }
}

/// The lowercase hexadecimal djb2 hash of the URL's UTF-8 bytes.
pub open spec fn short_hash_spec(url: Seq<char>) -> Seq<char> {
    hex(djb2(vstd::utf8::encode_utf8(url)) as nat)
}

/// A short non-cryptographic name for a URL: its djb2 hash in lowercase hex.
pub fn short_hash(url: &str) -> (h: String)
    ensures
        h@ == short_hash_spec(url@),
{
    let bytes = url.as_bytes();
    let n = bytes.len();
    let mut acc: u64 = 5381;
    for i in 0..n
        invariant
            n == bytes@.len(),
            bytes@ == vstd::utf8::encode_utf8(url@),
            acc == djb2(bytes@.take(i as int)),
    {
        assert(bytes@.take(i + 1).drop_last() =~= bytes@.take(i as int));
        acc = acc.wrapping_mul(33).wrapping_add(bytes[i] as u64);
    }
    assert(bytes@.take(n as int) =~= bytes@);
    let mut out: Vec<char> = Vec::new();
    push_digits(&mut out, acc, 16);
    assert(out@ =~= hex(acc as nat));
    string_of(&out)
}

/// `s` with every `.` replaced by `_`.
pub open spec fn dots_to_underscores(s: Seq<char>) -> Seq<char> {
    Seq::new(s.len(), |i: int| if s[i] == '.' {
        '_'
    } else {
        s[i]
    })
}

/// The host part of an automatic file name: the URL's host with `.` turned
/// into `_`, or `unknown`.
pub open spec fn filename_host(url: Seq<char>) -> Seq<char> {
    let host = match url_parse_result(url) {
        Some(u) => match u.host {
            Some(h) => h,
            None => "unknown"@,
        },
        None => "unknown"@,
    };
    dots_to_underscores(host)
}

/// The slug part of an automatic file name: the slug of the string title, or
/// the URL's short hash when there is no string title.
pub open spec fn filename_slug(url: Seq<char>, fm: Seq<(Seq<char>, FmView)>) -> Option<Seq<char>> {
    match map_get(fm, "title"@) {
        Some(FmView::Str(t)) => slugify_spec(t),
        _ => Some(short_hash_spec(url)),
    }
}

/// `{date}-{host}-{slug}.md`; `None` where the slug has no 60-byte cut.
pub open spec fn auto_filename_spec(date: Seq<char>, url: Seq<char>, fm: Seq<(Seq<char>, FmView)>) -> Option<Seq<char>> {
    match filename_slug(url, fm) {
        Some(slug) => Some(date + seq!['-'] + filename_host(url) + seq!['-'] + slug + ".md"@),
        None => None,
    }
}

fn replace_dots(s: &[char]) -> (r: Vec<char>)
    ensures
        r@ == dots_to_underscores(s@),
{
    let n = s.len();
    let mut r: Vec<char> = Vec::new();
    for i in 0..n
        invariant
            n == s@.len(),
            r@ == dots_to_underscores(s@).take(i as int),
    {
        r.push(if s[i] == '.' {
            '_'
        } else {
            s[i]
        });
        assert(r@ =~= dots_to_underscores(s@).take(i + 1));
    }
    assert(dots_to_underscores(s@).take(n as int) =~= dots_to_underscores(s@));
    r
}

/// The automatic output file name for a document fetched from `url` on
/// `date` (`YYYY-MM-DD`): `{date}-{host}-{slug}.md`.
pub fn auto_filename_on(date: &str, url: &str, doc: &MarkdownDoc) -> (r: Option<String>)
    ensures
        match r {
            Some(v) => auto_filename_spec(date@, url@, doc.frontmatter@) == Some(v@),
            None => auto_filename_spec(date@, url@, doc.frontmatter@) is None,
        },
{
    let host_text = match Url::parse(url) {
        Ok(u) => match u.host_str() {
            Some(h) => string_from(h),
            None => string_from("unknown"),
        },
        Err(_) => string_from("unknown"),
    };
    let host = replace_dots(&chars_of(host_text.as_str()));
    let slug = match doc.frontmatter.get("title") {
        Some(FmValue::Str(t)) => slugify(t.as_str()),
        _ => Some(short_hash(url)),
    };
    match slug {
        Some(sl) => {
            let mut out = chars_of(date);
            out.push('-');
            extend_chars(&mut out, &host);
            out.push('-');
            extend_chars(&mut out, &chars_of(sl.as_str()));
            extend_chars(&mut out, &chars_of(".md"));
            assert(out@ =~= auto_filename_spec(date@, url@, doc.frontmatter@)->Some_0);
            Some(string_of(&out))
        },
        None => None,
    }
}

/// Today's UTC date as `YYYY-MM-DD` (`OffsetDateTime::now_utc().date()`
/// displayed); it depends on the clock, so nothing is claimed of it.
#[verifier::external_body]
fn today_utc() -> (d: String) {
    time::OffsetDateTime::now_utc().date().to_string()
}

/// The automatic output file name for a document fetched from `url` today:
/// `{date}-{host}-{slug}.md` for some date text.
pub fn auto_filename(url: &str, doc: &MarkdownDoc) -> (r: Option<String>)
    ensures
        exists|date: Seq<char>|
            match r {
                Some(v) => auto_filename_spec(date, url@, doc.frontmatter@) == Some(v@),
                None => auto_filename_spec(date, url@, doc.frontmatter@) is None,
            },
{
    let date = today_utc();
    let r = auto_filename_on(date.as_str(), url, doc);
    assert(match r {
        Some(v) => auto_filename_spec(date@, url@, doc.frontmatter@) == Some(v@),
        None => auto_filename_spec(date@, url@, doc.frontmatter@) is None,
    });
    r
}

} // verus!
