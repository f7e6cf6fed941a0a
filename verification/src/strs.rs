//! Character-level string helpers shared by the whole library.
//!
//! Text is handled as `Vec<char>` / `Seq<char>`: a `String`'s view in Verus is
//! its sequence of Unicode scalar values.
use vstd::prelude::*;

verus! {

/// Unicode `White_Space` property, the set that `char::is_whitespace`
/// and the regex class `\s` use.
pub open spec fn is_ws(c: char) -> bool {
    let u = c as u32;
    ||| 0x09 <= u <= 0x0D
    ||| u == 0x20
    ||| u == 0x85
    ||| u == 0xA0
    ||| u == 0x1680
    ||| 0x2000 <= u <= 0x200A
    ||| u == 0x2028
    ||| u == 0x2029
    ||| u == 0x202F
    ||| u == 0x205F
    ||| u == 0x3000
}

/// ASCII letters and digits (`char::is_ascii_alphanumeric`).
pub open spec fn is_ascii_alnum(c: char) -> bool {
    ||| ('0' <= c && c <= '9')
    ||| ('a' <= c && c <= 'z')
    ||| ('A' <= c && c <= 'Z')
}

/// `p` is a prefix of `s`.
pub open spec fn has_prefix(s: Seq<char>, p: Seq<char>) -> bool {
    p.len() <= s.len() && s.subrange(0, p.len() as int) == p
}

/// `p` occurs in `s` starting at position `i`.
pub open spec fn occurs_at(s: Seq<char>, p: Seq<char>, i: int) -> bool {
    0 <= i && i + p.len() <= s.len() && s.subrange(i, i + p.len()) == p
}

/// `p` occurs somewhere in `s` (`str::contains`).
pub open spec fn contains_seq(s: Seq<char>, p: Seq<char>) -> bool {
    exists|i: int| occurs_at(s, p, i)
}

/// Leading Unicode whitespace removed (`str::trim_start`).
pub open spec fn trim_start(s: Seq<char>) -> Seq<char>
    decreases s.len(),
{
    if s.len() > 0 && is_ws(s[0]) {
        trim_start(s.drop_first())
    } else {
        s
    }
}

/// Trailing Unicode whitespace removed (`str::trim_end`).
pub open spec fn trim_end(s: Seq<char>) -> Seq<char>
    decreases s.len(),
{
    if s.len() > 0 && is_ws(s.last()) {
        trim_end(s.drop_last())
    } else {
        s
    }
}

/// Whitespace removed at both ends (`str::trim`).
pub open spec fn trim(s: Seq<char>) -> Seq<char> {
    trim_end(trim_start(s))
}

/// `trim_start(s)` is the suffix of `s` from the first non-whitespace character.
pub proof fn lemma_trim_start_suffix(s: Seq<char>, k: int)
    requires
        0 <= k <= s.len(),
        forall|i: int| 0 <= i < k ==> is_ws(#[trigger] s[i]),
        k == s.len() || !is_ws(s[k]),
    ensures
        trim_start(s) == s.subrange(k, s.len() as int),
    decreases k,
{
    if k == 0 {
        assert(s.subrange(0, s.len() as int) =~= s);
    } else {
        let t = s.drop_first();
        assert forall|i: int| 0 <= i < k - 1 implies is_ws(#[trigger] t[i]) by {
            assert(t[i] == s[i + 1]);
        }
        lemma_trim_start_suffix(t, k - 1);
        assert(t.subrange(k - 1, t.len() as int) =~= s.subrange(k, s.len() as int));
    }
}

/// `trim_end(s)` is the prefix of `s` up to the last non-whitespace character.
pub proof fn lemma_trim_end_prefix(s: Seq<char>, k: int)
    requires
        0 <= k <= s.len(),
        forall|i: int| k <= i < s.len() ==> is_ws(#[trigger] s[i]),
        k == 0 || !is_ws(s[k - 1]),
    ensures
        trim_end(s) == s.subrange(0, k),
    decreases s.len() - k,
{
    if k == s.len() {
        assert(s.subrange(0, k) =~= s);
    } else {
        let t = s.drop_last();
        assert forall|i: int| k <= i < t.len() implies is_ws(#[trigger] t[i]) by {
            assert(t[i] == s[i]);
        }
        lemma_trim_end_prefix(t, k);
        assert(t.subrange(0, k) =~= s.subrange(0, k));
    }
}

/// `char::is_whitespace`.
pub fn is_whitespace(c: char) -> (b: bool)
    ensures
        b == is_ws(c),
{
    let u = c as u32;
    (0x09 <= u && u <= 0x0D) || u == 0x20 || u == 0x85 || u == 0xA0 || u == 0x1680 || (0x2000
        <= u && u <= 0x200A) || u == 0x2028 || u == 0x2029 || u == 0x202F || u == 0x205F || u
        == 0x3000
}

/// `char::is_ascii_alphanumeric`.
pub fn is_ascii_alphanumeric(c: char) -> (b: bool)
    ensures
        b == is_ascii_alnum(c),
{
    ('0' <= c && c <= '9') || ('a' <= c && c <= 'z') || ('A' <= c && c <= 'Z')
}

/// The characters of a string slice, in order.
pub fn chars_of(s: &str) -> (v: Vec<char>)
    ensures
        v@ == s@,
{
    let mut v: Vec<char> = Vec::new();
    for c in it: s.chars()
        invariant
            v@ == it.seq().take(it.index() as int),
    {
        v.push(c);
    }
    v
}

/// Appends one character to a `String` (`String::push`).
#[verifier::external_body]
pub(crate) fn push_char(s: &mut String, c: char)
    ensures
        final(s)@ == old(s)@.push(c),
{
    s.push(c);
}

/// Builds a `String` from characters.
pub fn string_of(v: &[char]) -> (s: String)
    ensures
        s@ == v@,
{
    let mut s = String::new();
    let n = v.len();
    for i in 0..n
        invariant
            n == v@.len(),
            s@ == v@.take(i as int),
    {
        push_char(&mut s, v[i]);
        assert(v@.take(i + 1) =~= v@.take(i as int).push(v@[i as int]));
    }
    assert(v@.take(n as int) =~= v@);
    s
}

/// Appends all characters of `src` to `dst`.
pub fn extend_chars(dst: &mut Vec<char>, src: &[char])
    ensures
        final(dst)@ == old(dst)@ + src@,
{
    let n = src.len();
    for i in 0..n
        invariant
            n == src@.len(),
            dst@ == old(dst)@ + src@.take(i as int),
    {
        dst.push(src[i]);
        assert(src@.take(i + 1) =~= src@.take(i as int).push(src@[i as int]));
    }
    assert(src@.take(n as int) =~= src@);
}

/// Copies `v[from..to]`.
pub fn slice_chars(v: &[char], from: usize, to: usize) -> (r: Vec<char>)
    requires
        from <= to <= v@.len(),
    ensures
        r@ == v@.subrange(from as int, to as int),
{
    let mut r: Vec<char> = Vec::new();
    let mut i = from;
    while i < to
        invariant
            from <= i <= to <= v@.len(),
            r@ == v@.subrange(from as int, i as int),
        decreases to - i,
    {
        r.push(v[i]);
        assert(v@.subrange(from as int, i + 1) =~= v@.subrange(from as int, i as int).push(
            v@[i as int],
        ));
        i = i + 1;
    }
    r
}

/// Whether `p` occurs in `s` at position `i`.
pub fn occurs_at_exec(s: &[char], p: &[char], i: usize) -> (b: bool)
    ensures
        b == occurs_at(s@, p@, i as int),
{
    if i > s.len() || p.len() > s.len() - i {
        return false;
    }
    let n = p.len();
    for j in 0..n
        invariant
            n == p@.len(),
            i + n <= s@.len(),
            s@.len() == s.len(),
            forall|k: int| 0 <= k < j ==> s@[i + k] == p@[k],
    {
        assert(i + j < s.len());
        if s[i + j] != p[j] {
            assert(s@.subrange(i as int, i + n)[j as int] != p@[j as int]);
            return false;
        }
    }
    assert(s@.subrange(i as int, i + n) =~= p@);
    true
}

/// Whether `s` starts with `p` (`str::starts_with`).
pub fn starts_with(s: &[char], p: &[char]) -> (b: bool)
    ensures
        b == has_prefix(s@, p@),
{
    occurs_at_exec(s, p, 0)
}

/// Whether `p` occurs in `s` (`str::contains`).
pub fn contains(s: &[char], p: &[char]) -> (b: bool)
    ensures
        b == contains_seq(s@, p@),
{
    if p.len() > s.len() {
        assert forall|i: int| !occurs_at(s@, p@, i) by {}
        return false;
    }
    let last = s.len() - p.len();
    let mut i: usize = 0;
    while i <= last
        invariant
            last == s@.len() - p@.len(),
            forall|k: int| 0 <= k < i ==> !occurs_at(s@, p@, k),
        decreases last + 1 - i,
    {
        if occurs_at_exec(s, p, i) {
            return true;
        }
        if i == last {
            assert forall|k: int| !occurs_at(s@, p@, k) by {
                if 0 <= k <= i {
                }
            }
            return false;
        }
        i = i + 1;
    }
    false
}

/// Equality of two character sequences.
pub fn chars_eq(a: &[char], b: &[char]) -> (r: bool)
    ensures
        r == (a@ == b@),
{
    if a.len() != b.len() {
        return false;
    }
    let r = occurs_at_exec(a, b, 0);
    assert(r ==> a@.subrange(0, b@.len() as int) =~= a@);
    if !r {
        assert(a@.subrange(0, b@.len() as int) =~= a@);
    }
    r
}

/// Whether two string slices are equal.
pub fn str_eq(a: &str, b: &str) -> (r: bool)
    ensures
        r == (a@ == b@),
{
    let av = chars_of(a);
    let bv = chars_of(b);
    chars_eq(&av, &bv)
}

/// `str::trim`.
pub fn trim_chars(s: &[char]) -> (r: Vec<char>)
    ensures
        r@ == trim(s@),
{
    let n = s.len();
    let mut a: usize = 0;
    while a < n && is_whitespace(s[a])
        invariant
            a <= n == s@.len(),
            forall|i: int| 0 <= i < a ==> is_ws(#[trigger] s@[i]),
        decreases n - a,
    {
        a = a + 1;
    }
    proof {
        lemma_trim_start_suffix(s@, a as int);
    }
    let t = slice_chars(s, a, n);
    let m = t.len();
    let mut b: usize = m;
    while b > 0 && is_whitespace(t[b - 1])
        invariant
            b <= m == t@.len(),
            forall|i: int| b <= i < m ==> is_ws(#[trigger] t@[i]),
        decreases b,
    {
        b = b - 1;
    }
    proof {
        lemma_trim_end_prefix(t@, b as int);
    }
    slice_chars(&t, 0, b)
}

/// `str::trim` on a string slice.
pub fn trim_str(s: &str) -> (r: String)
    ensures
        r@ == trim(s@),
{
    let v = chars_of(s);
    let t = trim_chars(&v);
    string_of(&t)
}

/// Concatenates `a` and `b`.
pub fn concat_str(a: &str, b: &str) -> (r: String)
    ensures
        r@ == a@ + b@,
{
    let mut s = string_from(a);
    s.append(b);
    s
}

/// An owned copy of a string slice.
pub fn string_from(a: &str) -> (r: String)
    ensures
        r@ == a@,
{
    a.to_owned()
}

// ---------------------------------------------------------------------------
// UTF-8 lengths and Unicode lowercase
// ---------------------------------------------------------------------------

/// Bytes of the UTF-8 encoding of `c` (`char::len_utf8`).
pub open spec fn utf8_len(c: char) -> nat {
    let u = c as u32;
    if u < 0x80 {
        1
    } else if u < 0x800 {
        2
    } else if u < 0x10000 {
        3
    } else {
        4
    }
}

/// Bytes of the UTF-8 encoding of `s` (`str::len`).
pub open spec fn utf8_bytes_len(s: Seq<char>) -> nat
    decreases s.len(),
{
    if s.len() == 0 {
        0
    } else {
        utf8_bytes_len(s.drop_last()) + utf8_len(s.last())
    }
}

/// The number of leading characters of `s[j..]` whose encoding, added to
/// `acc` bytes, takes exactly `n` bytes; `None` when no character boundary
/// falls at byte `n`.
pub open spec fn char_count_at_bytes(s: Seq<char>, j: int, acc: nat, n: nat) -> Option<int>
    decreases s.len() - j,
{
    if acc == n {
        Some(j)
    } else if acc > n || j < 0 || j >= s.len() {
        None
    } else {
        char_count_at_bytes(s, j + 1, acc + utf8_len(s[j]), n)
    }
}

pub proof fn lemma_utf8_bytes_len_concat(a: Seq<char>, b: Seq<char>)
    ensures
        utf8_bytes_len(a + b) == utf8_bytes_len(a) + utf8_bytes_len(b),
    decreases b.len(),
{
    if b.len() == 0 {
        assert(a + b =~= a);
    } else {
        lemma_utf8_bytes_len_concat(a, b.drop_last());
        assert((a + b).drop_last() =~= a + b.drop_last());
        assert((a + b).last() == b.last());
    }
}

/// Where `char_count_at_bytes` finds a boundary, the characters before it
/// take exactly the asked number of bytes.
pub proof fn lemma_char_count_at_bytes(s: Seq<char>, j0: int, acc: nat, n: nat)
    requires
        0 <= j0 <= s.len(),
        char_count_at_bytes(s, j0, acc, n) is Some,
    ensures
        ({
            let j = char_count_at_bytes(s, j0, acc, n)->0;
            &&& j0 <= j <= s.len()
            &&& acc + utf8_bytes_len(s.subrange(j0, j)) == n
        }),
    decreases s.len() - j0,
{
    if acc == n {
        assert(s.subrange(j0, j0) =~= Seq::<char>::empty());
    } else {
        assert(j0 < s.len());
        lemma_char_count_at_bytes(s, j0 + 1, acc + utf8_len(s[j0]), n);
        let j = char_count_at_bytes(s, j0, acc, n)->0;
        assert(j == char_count_at_bytes(s, j0 + 1, acc + utf8_len(s[j0]), n)->0);
        assert(s.subrange(j0, j) =~= seq![s[j0]] + s.subrange(j0 + 1, j));
        lemma_utf8_bytes_len_concat(seq![s[j0]], s.subrange(j0 + 1, j));
        let one = seq![s[j0]];
        assert(one.drop_last() =~= Seq::<char>::empty());
        assert(one.last() == s[j0]);
        assert(utf8_bytes_len(Seq::<char>::empty()) == 0);
        assert(utf8_bytes_len(one) == utf8_bytes_len(one.drop_last()) + utf8_len(one.last()));
    }
}

/// `char::len_utf8`.
pub fn utf8_len_of(c: char) -> (n: u64)
    ensures
        n == utf8_len(c),
{
    let u = c as u32;
    if u < 0x80 {
        1
    } else if u < 0x800 {
        2
    } else if u < 0x10000 {
        3
    } else {
        4
    }
}

/// The UTF-8 length in bytes of the first `k` characters of `s`.
pub fn utf8_prefix_bytes(s: &[char], k: usize) -> (b: u128)
    requires
        k <= s@.len(),
    ensures
        b == utf8_bytes_len(s@.take(k as int)),
        b <= 4 * k,
{
    let mut b: u128 = 0;
    for i in 0..k
        invariant
            k <= s@.len(),
            b == utf8_bytes_len(s@.take(i as int)),
            b <= 4 * i,
    {
        assert(s@.take(i + 1).drop_last() =~= s@.take(i as int));
        b = b + utf8_len_of(s[i]) as u128;
    }
    b
}

/// The number of leading characters of `s` that take exactly `n` bytes in
/// UTF-8, or `None` when byte `n` is not a character boundary of `s`.
pub fn char_index_at_bytes(s: &[char], n: u128) -> (r: Option<usize>)
    ensures
        match r {
            Some(j) => char_count_at_bytes(s@, 0, 0, n as nat) == Some(j as int),
            None => char_count_at_bytes(s@, 0, 0, n as nat) is None,
        },
{
    let len = s.len();
    let mut j: usize = 0;
    let mut acc: u128 = 0;
    while acc < n && j < len
        invariant
            len == s@.len(),
            j <= len,
            acc <= 4 * j,
            char_count_at_bytes(s@, j as int, acc as nat, n as nat) == char_count_at_bytes(
                s@,
                0,
                0,
                n as nat,
            ),
        decreases len - j,
    {
        acc = acc + utf8_len_of(s[j]) as u128;
        j = j + 1;
    }
    if acc == n {
        Some(j)
    } else {
        None
    }
}

/// What `str::to_lowercase` returns for `s` (Unicode lowercase mapping).
pub uninterp spec fn to_lowercase_result(s: Seq<char>) -> Seq<char>;

/// The ASCII lowercase of one character: `A`-`Z` to `a`-`z`, others kept.
pub open spec fn ascii_lower(c: char) -> char {
    if 'A' <= c <= 'Z' {
        ((c as u32) + 32) as char
    } else {
        c
    }
}

/// Every character is ASCII.
pub open spec fn all_ascii(s: Seq<char>) -> bool {
    forall|i: int| 0 <= i < s.len() ==> (#[trigger] s[i] as u32) < 128
}

/// Calls `str::to_lowercase`. Claimed: the result depends on `s` alone, and
/// on ASCII text it is the ASCII lowercase, character for character (the
/// Unicode lowercase mapping of `A`-`Z` is `a`-`z`, and other ASCII
/// characters map to themselves). Nothing else is stated.
#[verifier::external_body]
pub(crate) fn str_to_lowercase(s: &str) -> (r: String)
    ensures
        r@ == to_lowercase_result(s@),
        all_ascii(s@) ==> r@ == Seq::new(s@.len(), |i: int| ascii_lower(s@[i])),
{
    s.to_lowercase()
}

} // verus!
