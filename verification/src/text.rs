//! Word counting and reading-time estimation for Markdown bodies.
//!
//! CJK characters count one each; other text is split on whitespace (and
//! at CJK characters), and each piece holding an ASCII letter or digit
//! counts once. Fenced code blocks and a leading YAML front matter block are
//! ignored.
use vstd::prelude::*;
use crate::strs::{
    chars_eq, chars_of, extend_chars, has_prefix, is_ascii_alnum, is_ascii_alphanumeric, is_whitespace, is_ws,
    lemma_trim_start_suffix, slice_chars, starts_with, trim_start,
};

verus! {

/// CJK unified ideographs (and extension A), Hiragana, Katakana, Hangul syllables.
pub open spec fn is_cjk_spec(c: char) -> bool {
    let u = c as u32;
    ||| 0x4E00 <= u <= 0x9FFF
    ||| 0x3400 <= u <= 0x4DBF
    ||| 0x3040 <= u <= 0x309F
    ||| 0x30A0 <= u <= 0x30FF
    ||| 0xAC00 <= u <= 0xD7AF
}

/// Index of the first `'\n'` in `s`, or `s.len()` when there is none.
pub open spec fn newline_index(s: Seq<char>) -> int
    decreases s.len(),
{
    if s.len() == 0 {
        0
    } else if s[0] == '\n' {
        0
    } else {
        1 + newline_index(s.drop_first())
    }
}

pub proof fn lemma_newline_index_bounds(s: Seq<char>)
    ensures
        0 <= newline_index(s) <= s.len(),
        newline_index(s) < s.len() ==> s[newline_index(s)] == '\n',
        forall|i: int| 0 <= i < newline_index(s) ==> s[i] != '\n',
    decreases s.len(),
{
    if s.len() > 0 && s[0] != '\n' {
        lemma_newline_index_bounds(s.drop_first());
        assert forall|i: int| 0 <= i < newline_index(s) implies s[i] != '\n' by {
            if i > 0 {
                assert(s[i] == s.drop_first()[i - 1]);
            }
        }
    }
}

pub proof fn lemma_newline_index_is(s: Seq<char>, k: int)
    requires
        0 <= k <= s.len(),
        forall|i: int| 0 <= i < k ==> s[i] != '\n',
        k == s.len() || s[k] == '\n',
    ensures
        newline_index(s) == k,
    decreases k,
{
    if k > 0 {
        let t = s.drop_first();
        assert forall|i: int| 0 <= i < k - 1 implies t[i] != '\n' by {
            assert(t[i] == s[i + 1]);
        }
        lemma_newline_index_is(t, k - 1);
    }
}

/// A line without its trailing carriage return.
pub open spec fn strip_cr(line: Seq<char>) -> Seq<char> {
    if line.len() > 0 && line.last() == '\r' {
        line.drop_last()
    } else {
        line
    }
}

/// The lines of `s` as `str::lines` yields them: split at `'\n'`, a `'\r'`
/// before the `'\n'` dropped, no empty line after a final `'\n'`.
pub open spec fn split_lines(s: Seq<char>) -> Seq<Seq<char>>
    decreases s.len(),
{
    if s.len() == 0 {
        seq![]
    } else {
        let k = newline_index(s);
        proof {
            lemma_newline_index_bounds(s);
        }
        if k >= s.len() {
            seq![s]
        } else {
            seq![strip_cr(s.subrange(0, k))] + split_lines(s.subrange(k + 1, s.len() as int))
        }
    }
}

/// A line that opens or closes a fenced code block.
pub open spec fn is_fence(line: Seq<char>) -> bool {
    has_prefix(trim_start(line), seq!['`', '`', '`'])
}

/// The lines outside fenced code blocks, each followed by `'\n'`.
pub open spec fn keep_outside_fences(lines: Seq<Seq<char>>, in_code: bool) -> Seq<char>
    decreases lines.len(),
{
    if lines.len() == 0 {
        seq![]
    } else {
        let line = lines[0];
        if is_fence(line) {
            keep_outside_fences(lines.drop_first(), !in_code)
        } else if in_code {
            keep_outside_fences(lines.drop_first(), in_code)
        } else {
            line + seq!['\n'] + keep_outside_fences(lines.drop_first(), in_code)
        }
    }
}

/// The body with fenced code blocks (and the fence lines) removed.
pub open spec fn strip_code_blocks_spec(body: Seq<char>) -> Seq<char> {
    keep_outside_fences(split_lines(body), false)
}

/// The next counting state after `c`: inside a piece that has been counted.
pub open spec fn next_in_word(c: char, in_word: bool) -> bool {
    if is_cjk_spec(c) || is_ws(c) {
        false
    } else {
        in_word || is_ascii_alnum(c)
    }
}

/// Words counted in `s` when scanning starts inside a counted piece
/// (`in_word`) or not: a CJK character counts one; a whitespace-separated
/// piece of other characters counts one at its first ASCII letter or digit.
pub open spec fn count_from(s: Seq<char>, in_word: bool) -> nat
    decreases s.len(),
{
    if s.len() == 0 {
        0
    } else {
        let c = s[0];
        let here: nat = if is_cjk_spec(c) || (!is_ws(c) && !in_word && is_ascii_alnum(c)) {
            1
        } else {
            0
        };
        here + count_from(s.drop_first(), next_in_word(c, in_word))
    }
}

/// A line that opens or closes YAML front matter.
pub open spec fn is_front_matter_delim(line: Seq<char>) -> bool {
    line == seq!['-', '-', '-']
}

/// The index of the first front matter delimiter among `lines` at or after `i`.
pub open spec fn delim_from(lines: Seq<Seq<char>>, i: int) -> Option<int>
    decreases lines.len() - i,
{
    if i < 0 || i >= lines.len() {
        None
    } else if is_front_matter_delim(lines[i]) {
        Some(i)
    } else {
        delim_from(lines, i + 1)
    }
}

/// The lines without a leading YAML front matter block: when the first line
/// is `---` and a later line is `---`, everything up to that later line is
/// dropped; otherwise the lines are kept.
pub open spec fn drop_front_matter(lines: Seq<Seq<char>>) -> Seq<Seq<char>> {
    if lines.len() > 0 && is_front_matter_delim(lines[0]) {
        match delim_from(lines, 1) {
            Some(k) => lines.subrange(k + 1, lines.len() as int),
            None => lines,
        }
    } else {
        lines
    }
}

/// The text that is counted: the body without front matter and without
/// fenced code blocks.
pub open spec fn counted_text(body: Seq<char>) -> Seq<char> {
    keep_outside_fences(drop_front_matter(split_lines(body)), false)
}

/// The word count of a Markdown body.
pub open spec fn count_words_spec(body: Seq<char>) -> nat {
    count_from(counted_text(body), false)
}

/// Minutes to read `word_count` words at 300 words per minute, rounded up.
pub open spec fn reading_time_spec(word_count: nat) -> nat {
    ((word_count + 299) / 300) as nat
}

pub proof fn lemma_count_from_le_len(s: Seq<char>, in_word: bool)
    ensures
        count_from(s, in_word) <= s.len(),
    decreases s.len(),
{
    if s.len() > 0 {
        lemma_count_from_le_len(s.drop_first(), false);
        lemma_count_from_le_len(s.drop_first(), true);
    }
}

/// Whether `ch` is a CJK ideograph, kana or Hangul syllable.
pub fn is_cjk(ch: char) -> (b: bool)
    ensures
        b == is_cjk_spec(ch),
{
    let u = ch as u32;
    (0x4E00 <= u && u <= 0x9FFF) || (0x3400 <= u && u <= 0x4DBF) || (0x3040 <= u && u <= 0x309F)
        || (0x30A0 <= u && u <= 0x30FF) || (0xAC00 <= u && u <= 0xD7AF)
}

/// The line of `body` that starts at `pos` (without its `'\n'`, and without
/// a `'\r'` before that `'\n'`) and where the next line starts.
fn next_line(body: &[char], pos: usize) -> (r: (Vec<char>, usize))
    requires
        pos < body@.len(),
    ensures
        pos < r.1 <= body@.len(),
        split_lines(body@.subrange(pos as int, body@.len() as int)) == seq![r.0@] + split_lines(
            body@.subrange(r.1 as int, body@.len() as int),
        ),
{
    let n = body.len();
    let ghost rest = body@.subrange(pos as int, n as int);
    let mut j = pos;
    while j < n && body[j] != '\n'
        invariant
            pos <= j <= n == body@.len(),
            forall|i: int| pos <= i < j ==> body@[i] != '\n',
        decreases n - j,
    {
        j = j + 1;
    }
    proof {
        assert forall|i: int| 0 <= i < j - pos implies rest[i] != '\n' by {
            assert(rest[i] == body@[pos + i]);
        }
        lemma_newline_index_is(rest, j - pos);
    }
    let mut end = j;
    if j < n && end > pos && body[end - 1] == '\r' {
        end = end - 1;
    }
    let line = slice_chars(body, pos, end);
    let next = if j < n {
        j + 1
    } else {
        n
    };
    proof {
        let lines = split_lines(rest);
        if j < n {
            assert(rest.subrange(0, j - pos) =~= body@.subrange(pos as int, j as int));
            assert(rest.subrange(j - pos + 1, rest.len() as int) =~= body@.subrange(j + 1, n as int));
            assert(strip_cr(body@.subrange(pos as int, j as int)) =~= line@);
            assert(lines =~= seq![line@] + split_lines(body@.subrange(j + 1, n as int)));
        } else {
            assert(rest =~= line@);
            assert(body@.subrange(n as int, n as int) =~= Seq::<char>::empty());
            assert(lines =~= seq![line@] + split_lines(body@.subrange(n as int, n as int)));
        }
    }
    (line, next)
}

/// Removes fenced code blocks (lines starting with ```` ``` ```` after leading
/// whitespace toggle the fence), keeping every other line followed by `'\n'`.
pub fn strip_code_blocks(body: &[char]) -> (out: Vec<char>)
    ensures
        out@ == strip_code_blocks_spec(body@),
{
    let n = body.len();
    let fence: Vec<char> = vec!['`', '`', '`'];
    let mut out: Vec<char> = Vec::new();
    let mut in_code = false;
    let mut pos: usize = 0;
    assert(body@.subrange(0, n as int) =~= body@);
    while pos < n
        invariant
            n == body@.len(),
            pos <= n,
            fence@ == seq!['`', '`', '`'],
            out@ + keep_outside_fences(split_lines(body@.subrange(pos as int, n as int)), in_code)
                == strip_code_blocks_spec(body@),
        decreases n - pos,
    {
        let (line, next) = next_line(body, pos);
        let ghost lines = split_lines(body@.subrange(pos as int, n as int));
        assert(lines[0] == line@);
        assert(lines.drop_first() =~= split_lines(body@.subrange(next as int, n as int)));
        let trimmed_start = {
            let mut a: usize = 0;
            let m = line.len();
            while a < m && is_whitespace(line[a])
                invariant
                    a <= m == line@.len(),
                    forall|i: int| 0 <= i < a ==> is_ws(#[trigger] line@[i]),
                decreases m - a,
            {
                a = a + 1;
            }
            proof {
                lemma_trim_start_suffix(line@, a as int);
            }
            slice_chars(&line, a, m)
        };
        let fenced = starts_with(&trimmed_start, &fence);
        let ghost before = out@;
        if fenced {
            in_code = !in_code;
        } else if !in_code {
            extend_chars(&mut out, &line);
            out.push('\n');
            assert(out@ =~= before + (line@ + seq!['\n']));
        }
        pos = next;
    }
    assert(body@.subrange(n as int, n as int) =~= Seq::<char>::empty());
    out
}

fn is_delim_line(line: &[char]) -> (b: bool)
    ensures
        b == is_front_matter_delim(line@),
{
    let d = vec!['-', '-', '-'];
    let r = chars_eq(line, &d);
    assert(d@ =~= seq!['-', '-', '-']);
    r
}

/// Where the text after a leading YAML front matter block starts: after the
/// closing `---` line when the first line is `---` and a later one is too,
/// else 0.
pub fn front_matter_end(body: &[char]) -> (p: usize)
    ensures
        p <= body@.len(),
        split_lines(body@.subrange(p as int, body@.len() as int)) == drop_front_matter(
            split_lines(body@),
        ),
{
    let n = body.len();
    let ghost lines = split_lines(body@);
    assert(body@.subrange(0, n as int) =~= body@);
    if n == 0 {
        return 0;
    }
    let (first, mut pos) = next_line(body, 0);
    if !is_delim_line(&first) {
        return 0;
    }
    let ghost mut i: int = 1;
    while pos < n
        invariant
            n == body@.len(),
            pos <= n,
            1 <= i <= lines.len(),
            lines == split_lines(body@),
            lines.len() > 0 && is_front_matter_delim(lines[0]),
            split_lines(body@.subrange(pos as int, n as int)) == lines.subrange(i, lines.len() as int),
            delim_from(lines, i) == delim_from(lines, 1),
            body@.subrange(0, n as int) == body@,
        decreases n - pos,
    {
        let (line, next) = next_line(body, pos);
        assert(lines.subrange(i, lines.len() as int) == seq![line@] + split_lines(
            body@.subrange(next as int, n as int),
        ));
        assert(lines.subrange(i, lines.len() as int).len() > 0);
        assert(i < lines.len());
        assert(lines[i] == lines.subrange(i, lines.len() as int)[0]);
        assert(lines[i] == line@);
        assert(lines.subrange(i + 1, lines.len() as int) =~= lines.subrange(i, lines.len() as int).drop_first());
        if is_delim_line(&line) {
            return next;
        }
        pos = next;
        proof {
            i = i + 1;
        }
    }
    assert(body@.subrange(n as int, n as int) =~= Seq::<char>::empty());
    assert(lines.subrange(i, lines.len() as int).len() == 0);
    0
}

/// Counts words in a Markdown body: each CJK character is one word; the rest
/// is split on whitespace and at CJK characters, and each piece holding an
/// ASCII letter or digit is one word. A leading YAML front matter block and
/// fenced code blocks are skipped.
pub fn count_words(body: &str) -> (n: usize)
    ensures
        n == count_words_spec(body@),
{
    let chars = chars_of(body);
    let start = front_matter_end(&chars);
    let rest = slice_chars(&chars, start, chars.len());
    let stripped = strip_code_blocks(&rest);
    let len = stripped.len();
    let mut count: usize = 0;
    let mut in_word = false;
    proof {
        lemma_count_from_le_len(stripped@, false);
        assert(stripped@.subrange(0, len as int) =~= stripped@);
    }
    for i in 0..len
        invariant
            len == stripped@.len(),
            stripped@ == counted_text(body@),
            count <= i,
            count + count_from(stripped@.subrange(i as int, len as int), in_word)
                == count_from(stripped@, false),
    {
        let ch = stripped[i];
        let ghost rest_i = stripped@.subrange(i as int, len as int);
        assert(rest_i.drop_first() =~= stripped@.subrange(i + 1, len as int));
        assert(rest_i[0] == ch);
        if is_cjk(ch) {
            count = count + 1;
            in_word = false;
        } else if is_whitespace(ch) {
            in_word = false;
        } else if !in_word && is_ascii_alphanumeric(ch) {
            count = count + 1;
            in_word = true;
        }
    }
    assert(stripped@.subrange(len as int, len as int) =~= Seq::<char>::empty());
    count
}

/// Reading time in minutes at 300 words per minute, rounded up; zero words
/// take zero minutes.
pub fn reading_time_minutes(word_count: usize) -> (m: usize)
    ensures
        m == reading_time_spec(word_count as nat),
{
    if word_count == 0 {
        return 0;
    }
    let m = (word_count - 1) / 300 + 1;
    assert(m == (word_count + 299) / 300) by (nonlinear_arith)
        requires
            word_count >= 1,
            m == (word_count - 1) / 300 + 1,
    ;
    m
}

/// Reading time never decreases when the word count grows.
pub proof fn law_reading_time_monotone(a: nat, b: nat)
    requires
        a <= b,
    ensures
        reading_time_spec(a) <= reading_time_spec(b),
{
    assert((a + 299) / 300 <= (b + 299) / 300) by (nonlinear_arith)
        requires
            a <= b,
    ;
}

/// Reading time is the least number of whole minutes that covers the words at
/// 300 per minute: zero exactly for zero words, otherwise
/// `300 * (m - 1) < w <= 300 * m`.
pub proof fn law_reading_time_is_ceiling(w: nat)
    ensures
        (reading_time_spec(w) == 0) == (w == 0),
        w > 0 ==> 300 * (reading_time_spec(w) - 1) < w <= 300 * reading_time_spec(w),
{
    let m = reading_time_spec(w);
    assert(300 * m <= w + 299 < 300 * m + 300) by (nonlinear_arith)
        requires
            m == (w + 299) / 300,
    ;
}

/// The counting state after reading `s` from state `in_word`.
pub open spec fn in_word_after(s: Seq<char>, in_word: bool) -> bool
    decreases s.len(),
{
    if s.len() == 0 {
        in_word
    } else {
        in_word_after(s.drop_first(), next_in_word(s[0], in_word))
    }
}

proof fn lemma_count_from_concat(a: Seq<char>, b: Seq<char>, in_word: bool)
    ensures
        count_from(a + b, in_word) == count_from(a, in_word) + count_from(b, in_word_after(a, in_word)),
    decreases a.len(),
{
    if a.len() == 0 {
        assert(a + b =~= b);
    } else {
        let c = a[0];
        assert((a + b).drop_first() =~= a.drop_first() + b);
        assert((a + b)[0] == c);
        lemma_count_from_concat(a.drop_first(), b, next_in_word(c, in_word));
    }
}

proof fn lemma_in_word_after_break(a: Seq<char>, in_word: bool)
    requires
        a.len() > 0,
        is_ws(a.last()) || is_cjk_spec(a.last()),
    ensures
        !in_word_after(a, in_word),
    decreases a.len(),
{
    if a.len() > 1 {
        assert(a.drop_first().last() == a.last());
        lemma_in_word_after_break(a.drop_first(), next_in_word(a[0], in_word));
    } else {
        assert(a.drop_first().len() == 0);
        assert(a[0] == a.last());
        assert(in_word_after(a.drop_first(), next_in_word(a[0], in_word)) == next_in_word(
            a[0],
            in_word,
        ));
    }
}

/// Counts add up over text split where a word cannot continue: when the
/// first part is empty or ends in whitespace or a CJK character, the count
/// of the whole is the sum of the counts of the parts.
pub proof fn law_count_is_additive(a: Seq<char>, b: Seq<char>)
    requires
        a.len() == 0 || is_ws(a.last()) || is_cjk_spec(a.last()),
    ensures
        count_from(a + b, false) == count_from(a, false) + count_from(b, false),
{
    lemma_count_from_concat(a, b, false);
    if a.len() > 0 {
        lemma_in_word_after_break(a, false);
    }
}

/// Every CJK character counts as one word: text made only of CJK characters
/// has as many words as characters.
pub proof fn law_cjk_chars_count_one_each(s: Seq<char>, in_word: bool)
    requires
        forall|i: int| 0 <= i < s.len() ==> is_cjk_spec(#[trigger] s[i]),
    ensures
        count_from(s, in_word) == s.len(),
    decreases s.len(),
{
    if s.len() > 0 {
        assert(is_cjk_spec(s[0]));
        assert forall|i: int| 0 <= i < s.drop_first().len() implies is_cjk_spec(
            #[trigger] s.drop_first()[i],
        ) by {
            assert(s.drop_first()[i] == s[i + 1]);
        }
        law_cjk_chars_count_one_each(s.drop_first(), false);
    }
}

/// The lines joined, each followed by `'\n'`.
pub open spec fn join_lines(lines: Seq<Seq<char>>) -> Seq<char>
    decreases lines.len(),
{
    if lines.len() == 0 {
        seq![]
    } else {
        lines[0] + seq!['\n'] + join_lines(lines.drop_first())
    }
}

proof fn lemma_keep_plain_prefix(l1: Seq<Seq<char>>, rest: Seq<Seq<char>>)
    requires
        forall|i: int| 0 <= i < l1.len() ==> !is_fence(#[trigger] l1[i]),
    ensures
        keep_outside_fences(l1 + rest, false) == join_lines(l1) + keep_outside_fences(rest, false),
    decreases l1.len(),
{
    if l1.len() == 0 {
        assert(l1 + rest =~= rest);
        assert(join_lines(l1) + keep_outside_fences(rest, false) =~= keep_outside_fences(rest, false));
    } else {
        assert(!is_fence(l1[0]));
        assert((l1 + rest)[0] == l1[0]);
        assert((l1 + rest).drop_first() =~= l1.drop_first() + rest);
        assert forall|i: int| 0 <= i < l1.drop_first().len() implies !is_fence(
            #[trigger] l1.drop_first()[i],
        ) by {
            assert(l1.drop_first()[i] == l1[i + 1]);
        }
        lemma_keep_plain_prefix(l1.drop_first(), rest);
        assert(keep_outside_fences(l1 + rest, false) =~= join_lines(l1) + keep_outside_fences(rest, false));
    }
}

proof fn lemma_keep_skips_code(code: Seq<Seq<char>>, rest: Seq<Seq<char>>)
    requires
        forall|i: int| 0 <= i < code.len() ==> !is_fence(#[trigger] code[i]),
    ensures
        keep_outside_fences(code + rest, true) == keep_outside_fences(rest, true),
    decreases code.len(),
{
    if code.len() == 0 {
        assert(code + rest =~= rest);
    } else {
        assert(!is_fence(code[0]));
        assert((code + rest)[0] == code[0]);
        assert((code + rest).drop_first() =~= code.drop_first() + rest);
        assert forall|i: int| 0 <= i < code.drop_first().len() implies !is_fence(
            #[trigger] code.drop_first()[i],
        ) by {
            assert(code.drop_first()[i] == code[i + 1]);
        }
        lemma_keep_skips_code(code.drop_first(), rest);
    }
}

/// A fenced code block does not contribute to the text that is counted:
/// lines before it, the fence lines and the code lines, then lines after it
/// keep exactly what the lines before and after keep (when the lines before
/// and the code hold no fence of their own).
pub proof fn law_fenced_block_is_dropped(
    before: Seq<Seq<char>>,
    fence_open: Seq<char>,
    code: Seq<Seq<char>>,
    fence_close: Seq<char>,
    after: Seq<Seq<char>>,
)
    requires
        forall|i: int| 0 <= i < before.len() ==> !is_fence(#[trigger] before[i]),
        forall|i: int| 0 <= i < code.len() ==> !is_fence(#[trigger] code[i]),
        is_fence(fence_open),
        is_fence(fence_close),
    ensures
        keep_outside_fences(before + seq![fence_open] + code + seq![fence_close] + after, false)
            == keep_outside_fences(before + after, false),
{
    let tail = seq![fence_open] + code + seq![fence_close] + after;
    assert(before + seq![fence_open] + code + seq![fence_close] + after =~= before + tail);
    lemma_keep_plain_prefix(before, tail);
    lemma_keep_plain_prefix(before, after);
    assert(tail[0] == fence_open);
    assert(tail.drop_first() =~= code + (seq![fence_close] + after));
    lemma_keep_skips_code(code, seq![fence_close] + after);
    let t2 = seq![fence_close] + after;
    assert(t2[0] == fence_close);
    assert(t2.drop_first() =~= after);
}

proof fn lemma_ws_counts_nothing(s: Seq<char>, in_word: bool)
    requires
        forall|i: int| 0 <= i < s.len() ==> is_ws(#[trigger] s[i]),
    ensures
        count_from(s, in_word) == 0,
    decreases s.len(),
{
    if s.len() > 0 {
        assert(is_ws(s[0]));
        assert(!is_cjk_spec(s[0]));
        assert forall|i: int| 0 <= i < s.drop_first().len() implies is_ws(#[trigger] s.drop_first()[i]) by {
            assert(s.drop_first()[i] == s[i + 1]);
        }
        lemma_ws_counts_nothing(s.drop_first(), false);
    }
}

/// `line` followed by `'\n'` counts as the same line after a newline
/// whether or not its trailing `'\r'` was dropped.
proof fn lemma_line_count(line: Seq<char>)
    ensures
        count_from(strip_cr(line) + seq!['\n'], false) == count_from(line + seq!['\n'], false),
{
    let nl = seq!['\n'];
    lemma_count_from_concat(strip_cr(line), nl, false);
    lemma_ws_counts_nothing(nl, in_word_after(strip_cr(line), false));
    if line.len() > 0 && line.last() == '\r' {
        let short = line.drop_last();
        let tail = seq!['\r', '\n'];
        assert(line + nl =~= short + tail);
        lemma_count_from_concat(short, tail, false);
        lemma_ws_counts_nothing(tail, in_word_after(short, false));
    }
}

proof fn lemma_join_split_count(x: Seq<char>)
    ensures
        count_from(join_lines(split_lines(x)), false) == count_from(x, false),
    decreases x.len(),
{
    let nl = seq!['\n'];
    if x.len() > 0 {
        let k = newline_index(x);
        lemma_newline_index_bounds(x);
        if k >= x.len() {
            assert(split_lines(x) =~= seq![x]);
            assert(join_lines(seq![x]) =~= x + nl + join_lines(seq![x].drop_first()));
            assert(join_lines(seq![x].drop_first()) =~= Seq::<char>::empty());
            assert(x + nl + Seq::<char>::empty() =~= x + nl);
            lemma_count_from_concat(x, nl, false);
            lemma_ws_counts_nothing(nl, in_word_after(x, false));
        } else {
            let line = x.subrange(0, k);
            let rest = x.subrange(k + 1, x.len() as int);
            let lines = split_lines(x);
            assert(lines =~= seq![strip_cr(line)] + split_lines(rest));
            assert(lines[0] == strip_cr(line));
            assert(lines.drop_first() =~= split_lines(rest));
            let j = join_lines(split_lines(rest));
            assert(join_lines(lines) =~= (strip_cr(line) + nl) + j);
            lemma_join_split_count(rest);
            assert(x =~= (line + nl) + rest);
            lemma_count_from_concat(strip_cr(line) + nl, j, false);
            lemma_in_word_after_break(strip_cr(line) + nl, false);
            lemma_count_from_concat(line + nl, rest, false);
            lemma_in_word_after_break(line + nl, false);
            lemma_line_count(line);
        }
    }
}

/// A body with no fence line and no leading front matter block.
pub open spec fn plain_body(x: Seq<char>) -> bool {
    &&& forall|i: int| 0 <= i < split_lines(x).len() ==> !is_fence(#[trigger] split_lines(x)[i])
    &&& drop_front_matter(split_lines(x)) == split_lines(x)
}

/// In a body with no fence line and no front matter nothing is skipped: the
/// word count is the count of the whole text.
pub proof fn law_plain_body_counts_everything(x: Seq<char>)
    requires
        plain_body(x),
    ensures
        count_words_spec(x) == count_from(x, false),
{
    let lines = split_lines(x);
    lemma_keep_plain_prefix(lines, Seq::<Seq<char>>::empty());
    assert(lines + Seq::<Seq<char>>::empty() =~= lines);
    assert(join_lines(lines) + Seq::<char>::empty() =~= join_lines(lines));
    lemma_join_split_count(x);
}

/// Word counts add up over bodies joined by a newline, when neither the
/// parts nor the whole hold a fence line or front matter.
pub proof fn law_count_words_additive(a: Seq<char>, b: Seq<char>)
    requires
        plain_body(a),
        plain_body(b),
        plain_body(a + seq!['\n'] + b),
    ensures
        count_words_spec(a + seq!['\n'] + b) == count_words_spec(a) + count_words_spec(b),
{
    let nl = seq!['\n'];
    law_plain_body_counts_everything(a);
    law_plain_body_counts_everything(b);
    law_plain_body_counts_everything(a + nl + b);
    assert(a + nl + b =~= a + (nl + b));
    lemma_count_from_concat(a, nl + b, false);
    assert((nl + b).drop_first() =~= b);
    assert((nl + b)[0] == '\n');
}

proof fn lemma_delim_from_skips(lines: Seq<Seq<char>>, i: int, k: int)
    requires
        1 <= i <= k < lines.len(),
        forall|j: int| i <= j < k ==> !is_front_matter_delim(#[trigger] lines[j]),
        is_front_matter_delim(lines[k]),
    ensures
        delim_from(lines, i) == Some(k),
    decreases k - i,
{
    if i < k {
        lemma_delim_from_skips(lines, i + 1, k);
    }
}

/// A leading YAML front matter block is not counted: the lines `---`, the
/// YAML lines (none of them `---`), `---`, then the rest keep exactly what
/// the rest keeps.
pub proof fn law_front_matter_is_dropped(yaml: Seq<Seq<char>>, rest: Seq<Seq<char>>)
    requires
        forall|i: int| 0 <= i < yaml.len() ==> !is_front_matter_delim(#[trigger] yaml[i]),
    ensures
        drop_front_matter(seq![seq!['-', '-', '-']] + yaml + seq![seq!['-', '-', '-']] + rest)
            == rest,
{
    let d = seq!['-', '-', '-'];
    let lines = seq![d] + yaml + seq![d] + rest;
    let k: int = yaml.len() as int + 1;
    assert(lines[0] == d);
    assert(lines[k] == d);
    assert forall|j: int| 1 <= j < k implies !is_front_matter_delim(#[trigger] lines[j]) by {
        assert(lines[j] == yaml[j - 1]);
    }
    lemma_delim_from_skips(lines, 1, k);
    assert(lines.subrange(k + 1, lines.len() as int) =~= rest);
}

proof fn lemma_split_join(a: Seq<char>, b: Seq<char>)
    ensures
        split_lines(a + seq!['\n'] + b) == split_lines(a + seq!['\n']) + split_lines(b),
    decreases a.len(),
{
    let nl = seq!['\n'];
    let x = a + nl + b;
    let y = a + nl;
    lemma_newline_index_bounds(a);
    let k = newline_index(a);
    if k < a.len() {
        assert forall|i: int| 0 <= i < k implies x[i] != '\n' by {
            assert(x[i] == a[i]);
        }
        assert forall|i: int| 0 <= i < k implies y[i] != '\n' by {
            assert(y[i] == a[i]);
        }
        assert(x[k] == a[k] && y[k] == a[k]);
        lemma_newline_index_is(x, k);
        lemma_newline_index_is(y, k);
        let a2 = a.subrange(k + 1, a.len() as int);
        assert(x.subrange(0, k) =~= a.subrange(0, k));
        assert(y.subrange(0, k) =~= a.subrange(0, k));
        assert(x.subrange(k + 1, x.len() as int) =~= a2 + nl + b);
        assert(y.subrange(k + 1, y.len() as int) =~= a2 + nl);
        lemma_split_join(a2, b);
        assert(split_lines(x) =~= seq![strip_cr(a.subrange(0, k))] + split_lines(a2 + nl + b));
        assert(split_lines(y) =~= seq![strip_cr(a.subrange(0, k))] + split_lines(a2 + nl));
    } else {
        let n = a.len() as int;
        assert forall|i: int| 0 <= i < n implies x[i] != '\n' by {
            assert(x[i] == a[i]);
        }
        assert forall|i: int| 0 <= i < n implies y[i] != '\n' by {
            assert(y[i] == a[i]);
        }
        lemma_newline_index_is(x, n);
        lemma_newline_index_is(y, n);
        assert(x.subrange(0, n) =~= a);
        assert(y.subrange(0, n) =~= a);
        assert(x.subrange(n + 1, x.len() as int) =~= b);
        assert(y.subrange(n + 1, y.len() as int) =~= Seq::<char>::empty());
        assert(split_lines(x) =~= seq![strip_cr(a)] + split_lines(b));
        assert(split_lines(y) =~= seq![strip_cr(a)] + split_lines(Seq::<char>::empty()));
        assert(split_lines(Seq::<char>::empty()) =~= Seq::<Seq<char>>::empty());
    }
}

/// A line that is neither a fence nor a front matter delimiter.
pub open spec fn plain_line(line: Seq<char>) -> bool {
    !is_fence(line) && !is_front_matter_delim(line)
}

/// Every line of `x` is a plain line.
pub open spec fn plain_lines(x: Seq<char>) -> bool {
    forall|i: int| 0 <= i < split_lines(x).len() ==> plain_line(#[trigger] split_lines(x)[i])
}

proof fn lemma_empty_line_plain()
    ensures
        plain_line(Seq::<char>::empty()),
{
    assert(trim_start(Seq::<char>::empty()) =~= Seq::<char>::empty());
    assert(Seq::<char>::empty() != seq!['-', '-', '-']) by {
        assert(seq!['-', '-', '-'].len() == 3);
    }
}

proof fn lemma_trim_start_push(m: Seq<char>, c: char)
    requires
        trim_start(m).len() > 0,
    ensures
        trim_start(m.push(c)) == trim_start(m).push(c),
    decreases m.len(),
{
    assert(m.len() > 0);
    assert(m.push(c)[0] == m[0]);
    if is_ws(m[0]) {
        assert(m.push(c).drop_first() =~= m.drop_first().push(c));
        lemma_trim_start_push(m.drop_first(), c);
    }
}

proof fn lemma_fence_strip_cr(line: Seq<char>)
    requires
        is_fence(strip_cr(line)),
    ensures
        is_fence(line),
{
    if line.len() > 0 && line.last() == '\r' {
        let m = line.drop_last();
        assert(line =~= m.push('\r'));
        lemma_trim_start_push(m, '\r');
        let t = trim_start(m);
        assert(t.push('\r').subrange(0, 3) =~= t.subrange(0, 3));
    }
}

proof fn lemma_delim_from_none(lines: Seq<Seq<char>>, i: int)
    requires
        0 <= i,
        forall|j: int| i <= j < lines.len() ==> !is_front_matter_delim(#[trigger] lines[j]),
    ensures
        delim_from(lines, i) is None,
    decreases lines.len() - i,
{
    if i < lines.len() {
        lemma_delim_from_none(lines, i + 1);
    }
}

proof fn lemma_terminated_lines(a: Seq<char>)
    requires
        plain_lines(a),
    ensures
        split_lines(a + seq!['\n']).len() > 0,
        forall|i: int|
            0 <= i < split_lines(a + seq!['\n']).len() ==> !is_fence(
                #[trigger] split_lines(a + seq!['\n'])[i],
            ),
        !is_front_matter_delim(split_lines(a + seq!['\n'])[0]) || split_lines(
            a + seq!['\n'],
        ).len() == 1,
    decreases a.len(),
{
    let nl = seq!['\n'];
    let y = a + nl;
    lemma_empty_line_plain();
    lemma_newline_index_bounds(a);
    let k = newline_index(a);
    if a.len() == 0 {
        assert(y =~= nl);
        lemma_newline_index_is(y, 0);
        assert(y.subrange(0, 0) =~= Seq::<char>::empty());
        assert(strip_cr(Seq::<char>::empty()) =~= Seq::<char>::empty());
        assert(y.subrange(1, 1) =~= Seq::<char>::empty());
        assert(split_lines(Seq::<char>::empty()) =~= Seq::<Seq<char>>::empty());
        assert(split_lines(y) =~= seq![Seq::<char>::empty()]);
    } else if k < a.len() {
        assert forall|i: int| 0 <= i < k implies y[i] != '\n' by {
            assert(y[i] == a[i]);
        }
        assert(y[k] == a[k]);
        lemma_newline_index_is(y, k);
        let a2 = a.subrange(k + 1, a.len() as int);
        assert(y.subrange(0, k) =~= a.subrange(0, k));
        assert(y.subrange(k + 1, y.len() as int) =~= a2 + nl);
        let la = split_lines(a);
        assert(la =~= seq![strip_cr(a.subrange(0, k))] + split_lines(a2));
        assert(plain_line(la[0]));
        assert forall|i: int| 0 <= i < split_lines(a2).len() implies plain_line(
            #[trigger] split_lines(a2)[i],
        ) by {
            assert(split_lines(a2)[i] == la[i + 1]);
        }
        lemma_terminated_lines(a2);
        let ly = split_lines(y);
        assert(ly =~= seq![strip_cr(a.subrange(0, k))] + split_lines(a2 + nl));
        assert forall|i: int| 0 <= i < ly.len() implies !is_fence(#[trigger] ly[i]) by {
            if i > 0 {
                assert(ly[i] == split_lines(a2 + nl)[i - 1]);
            }
        }
    } else {
        let n = a.len() as int;
        assert forall|i: int| 0 <= i < n implies y[i] != '\n' by {
            assert(y[i] == a[i]);
        }
        lemma_newline_index_is(y, n);
        assert(y.subrange(0, n) =~= a);
        assert(y.subrange(n + 1, y.len() as int) =~= Seq::<char>::empty());
        assert(split_lines(Seq::<char>::empty()) =~= Seq::<Seq<char>>::empty());
        assert(split_lines(y) =~= seq![strip_cr(a)]);
        assert(split_lines(a) =~= seq![a]);
        assert(plain_line(split_lines(a)[0]));
        if is_fence(strip_cr(a)) {
            lemma_fence_strip_cr(a);
        }
    }
}

proof fn lemma_plain_lines_plain_body(x: Seq<char>)
    requires
        plain_lines(x),
    ensures
        plain_body(x),
{
    let l = split_lines(x);
    if l.len() > 0 {
        assert(plain_line(l[0]));
    }
}

/// Word counts add up over bodies joined by a line break: when no line of
/// `a` or `b` is a code fence or a front matter delimiter (`---`), the count
/// of `a`, a newline, and `b` is the count of `a` plus the count of `b`.
pub proof fn law_count_words_adds_over_lines(a: Seq<char>, b: Seq<char>)
    requires
        plain_lines(a),
        plain_lines(b),
    ensures
        count_words_spec(a + seq!['\n'] + b) == count_words_spec(a) + count_words_spec(b),
{
    let nl = seq!['\n'];
    lemma_split_join(a, b);
    lemma_terminated_lines(a);
    let la = split_lines(a + nl);
    let lb = split_lines(b);
    let lx = split_lines(a + nl + b);
    assert(lx == la + lb);
    assert forall|i: int| 0 <= i < lx.len() implies !is_fence(#[trigger] lx[i]) by {
        if i < la.len() {
            assert(lx[i] == la[i]);
        } else {
            assert(lx[i] == lb[i - la.len()]);
            assert(plain_line(lb[i - la.len()]));
        }
    }
    assert(lx[0] == la[0]);
    if is_front_matter_delim(lx[0]) {
        assert forall|j: int| 1 <= j < lx.len() implies !is_front_matter_delim(#[trigger] lx[j]) by {
            assert(lx[j] == lb[j - 1]);
            assert(plain_line(lb[j - 1]));
        }
        lemma_delim_from_none(lx, 1);
    }
    assert(plain_body(a + nl + b));
    lemma_plain_lines_plain_body(a);
    lemma_plain_lines_plain_body(b);
    law_count_words_additive(a, b);
}

proof fn lemma_in_piece_counts_nothing(p: Seq<char>)
    requires
        forall|i: int| 0 <= i < p.len() ==> !is_ws(#[trigger] p[i]) && !is_cjk_spec(p[i]),
    ensures
        count_from(p, true) == 0,
    decreases p.len(),
{
    if p.len() > 0 {
        assert(!is_ws(p[0]) && !is_cjk_spec(p[0]));
        assert forall|i: int| 0 <= i < p.drop_first().len() implies !is_ws(#[trigger] p.drop_first()[i])
            && !is_cjk_spec(p.drop_first()[i]) by {
            assert(p.drop_first()[i] == p[i + 1]);
        }
        lemma_in_piece_counts_nothing(p.drop_first());
    }
}

/// A piece of text with no whitespace and no CJK character counts as one
/// word when it holds an ASCII letter or digit (digits alone included), and
/// as none otherwise.
pub proof fn law_piece_counts_once(p: Seq<char>)
    requires
        forall|i: int| 0 <= i < p.len() ==> !is_ws(#[trigger] p[i]) && !is_cjk_spec(p[i]),
    ensures
        count_from(p, false) == (if exists|i: int| 0 <= i < p.len() && is_ascii_alnum(#[trigger] p[i]) {
            1nat
        } else {
            0nat
        }),
    decreases p.len(),
{
    if p.len() > 0 {
        let t = p.drop_first();
        assert forall|i: int| 0 <= i < t.len() implies !is_ws(#[trigger] t[i]) && !is_cjk_spec(t[i]) by {
            assert(t[i] == p[i + 1]);
        }
        if is_ascii_alnum(p[0]) {
            lemma_in_piece_counts_nothing(t);
        } else {
            law_piece_counts_once(t);
            if exists|i: int| 0 <= i < p.len() && is_ascii_alnum(#[trigger] p[i]) {
                let i = choose|i: int| 0 <= i < p.len() && is_ascii_alnum(#[trigger] p[i]);
                assert(t[i - 1] == p[i]);
            }
            if exists|i: int| 0 <= i < t.len() && is_ascii_alnum(#[trigger] t[i]) {
                let i = choose|i: int| 0 <= i < t.len() && is_ascii_alnum(#[trigger] t[i]);
                assert(p[i + 1] == t[i]);
            }
        }
    }
}

/// A body that is one such piece, not opening a code fence, has exactly
/// one word: `count_words("2024")`, `count_words("don't")` and
/// `count_words("v2.0")` are all 1.
pub proof fn law_single_piece_is_one_word(p: Seq<char>, k: int)
    requires
        forall|i: int| 0 <= i < p.len() ==> !is_ws(#[trigger] p[i]) && !is_cjk_spec(p[i]),
        0 <= k < p.len(),
        is_ascii_alnum(p[k]),
        !has_prefix(p, seq!['`', '`', '`']),
    ensures
        count_words_spec(p) == 1,
{
    law_piece_counts_once(p);
    assert forall|i: int| 0 <= i < p.len() implies p[i] != '\n' by {
        assert(!is_ws(p[i]));
    }
    lemma_newline_index_is(p, p.len() as int);
    assert(split_lines(p) =~= seq![p]);
    assert(!is_front_matter_delim(p)) by {
        if p == seq!['-', '-', '-'] {
            assert(!is_ascii_alnum(p[k]));
        }
    }
    assert(drop_front_matter(seq![p]) == seq![p]);
    lemma_trim_start_suffix(p, 0);
    assert(p.subrange(0, p.len() as int) =~= p);
    assert(!is_fence(p));
    let nl = seq!['\n'];
    assert(seq![p].drop_first() =~= Seq::<Seq<char>>::empty());
    assert(seq![p][0] == p);
    assert(keep_outside_fences(Seq::<Seq<char>>::empty(), false) =~= Seq::<char>::empty());
    assert(keep_outside_fences(seq![p], false) == p + nl + keep_outside_fences(
        Seq::<Seq<char>>::empty(),
        false,
    ));
    assert(keep_outside_fences(seq![p], false) =~= p + nl);
    lemma_count_from_concat(p, nl, false);
    lemma_ws_counts_nothing(nl, in_word_after(p, false));
}

} // verus!
