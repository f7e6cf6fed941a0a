//! Decimal and hexadecimal rendering of unsigned integers.
use vstd::prelude::*;

verus! {

/// The sixteen digit characters, lowercase.
pub open spec fn digit_table() -> Seq<char> {
    seq!['0', '1', '2', '3', '4', '5', '6', '7', '8', '9', 'a', 'b', 'c', 'd', 'e', 'f']
}

/// The ASCII digit for `d` (`d < 16`; `a`-`f` above 9).
pub open spec fn digit_char(d: nat) -> char {
    digit_table()[d as int]
}

/// A decimal digit character denotes its number.
pub proof fn lemma_digit_char_value(d: nat)
    requires
        d < 10,
    ensures
        (digit_char(d) as u32) - ('0' as u32) == d,
{
    if d == 0 {
    } else if d == 1 {
    } else if d == 2 {
    } else if d == 3 {
    } else if d == 4 {
    } else if d == 5 {
    } else if d == 6 {
    } else if d == 7 {
    } else if d == 8 {
    } else {
    }
}

/// The digits of `n` in base `b` (`2 <= b <= 16`), most significant first, without leading zeros.
pub open spec fn digits(n: nat, b: nat) -> Seq<char>
    recommends
        2 <= b <= 16,
    decreases n,
{
    if b < 2 || n < b {
        seq![digit_char(n)]
    } else {
        proof {
            assert(n / b < n) by (nonlinear_arith)
                requires
                    n >= b,
                    b >= 2,
            ;
        }
        digits(n / b, b).push(digit_char(n % b))
    }
}

/// `format!("{}", n)`.
pub open spec fn dec(n: nat) -> Seq<char> {
    digits(n, 10)
}

/// `format!("{:x}", n)`.
pub open spec fn hex(n: nat) -> Seq<char> {
    digits(n, 16)
}

/// `s` left-padded with `'0'` to at least `width` characters (`{:0width$}`).
pub open spec fn zero_pad(s: Seq<char>, width: nat) -> Seq<char> {
    if s.len() < width {
        Seq::new((width - s.len()) as nat, |i: int| '0') + s
    } else {
        s
    }
}

/// The number a string of decimal digits denotes.
pub open spec fn dec_value(s: Seq<char>) -> int
    decreases s.len(),
{
    if s.len() == 0 {
        0
    } else {
        dec_value(s.drop_last()) * 10 + ((s.last() as u32) - ('0' as u32))
    }
}

pub proof fn lemma_dec_value_of_dec(n: nat)
    ensures
        dec_value(dec(n)) == n,
    decreases n,
{
    if n >= 10 {
        lemma_dec_value_of_dec(n / 10);
        assert(dec(n) == dec(n / 10).push(digit_char(n % 10)));
        assert(dec(n).drop_last() =~= dec(n / 10));
        assert(dec(n).last() == digit_char(n % 10));
        lemma_digit_char_value(n % 10);
        assert((n / 10) * 10 + n % 10 == n);
        assert(dec_value(dec(n)) == dec_value(dec(n / 10)) * 10 + (n % 10));
    } else {
        assert(dec(n) == seq![digit_char(n)]);
        assert(dec(n).drop_last() =~= Seq::<char>::empty());
        lemma_digit_char_value(n);
        assert(dec_value(dec(n)) == dec_value(Seq::<char>::empty()) * 10 + n);
    }
}

pub proof fn lemma_dec_value_zero_prefix(k: nat, s: Seq<char>)
    ensures
        dec_value(Seq::new(k, |i: int| '0') + s) == dec_value(s),
    decreases s.len() + k,
{
    let z = Seq::new(k, |i: int| '0');
    if s.len() == 0 {
        assert(z + s =~= z);
        if k > 0 {
            let z1 = Seq::new((k - 1) as nat, |i: int| '0');
            assert(z.drop_last() =~= z1 + Seq::<char>::empty());
            lemma_dec_value_zero_prefix((k - 1) as nat, Seq::<char>::empty());
            assert(z1 + Seq::<char>::empty() =~= z1);
        }
    } else {
        assert((z + s).drop_last() =~= z + s.drop_last());
        lemma_dec_value_zero_prefix(k, s.drop_last());
    }
}

/// Zero-padding keeps the number that a string of decimal digits denotes.
pub proof fn lemma_dec_value_zero_pad(s: Seq<char>, width: nat)
    ensures
        dec_value(zero_pad(s, width)) == dec_value(s),
{
    if s.len() < width {
        lemma_dec_value_zero_prefix((width - s.len()) as nat, s);
    }
}

/// Every character of a zero-padded decimal is an ASCII digit.
pub proof fn lemma_zero_pad_dec_digits(n: nat, width: nat)
    ensures
        forall|i: int|
            0 <= i < zero_pad(dec(n), width).len() ==> '0' <= #[trigger] zero_pad(dec(n), width)[i]
                <= '9',
{
    lemma_dec_digits(n);
}

/// Every character of a decimal is an ASCII digit.
pub proof fn lemma_dec_digits(n: nat)
    ensures
        forall|i: int| 0 <= i < dec(n).len() ==> '0' <= #[trigger] dec(n)[i] <= '9',
    decreases n,
{
    if n < 10 {
        lemma_digit_char_value(n);
    } else {
        lemma_dec_digits(n / 10);
        lemma_digit_char_value(n % 10);
        assert(dec(n) == dec(n / 10).push(digit_char(n % 10)));
    }
}

/// The digit character for `d < 16`.
pub fn digit_to_char(d: u64) -> (c: char)
    requires
        d < 16,
    ensures
        c == digit_char(d as nat),
{
    let table = ['0', '1', '2', '3', '4', '5', '6', '7', '8', '9', 'a', 'b', 'c', 'd', 'e', 'f'];
    assert(table@ =~= digit_table());
    table[d as usize]
}

/// Appends the base-`b` digits of `n`.
pub fn push_digits(out: &mut Vec<char>, n: u64, b: u64)
    requires
        2 <= b <= 16,
    ensures
        final(out)@ == old(out)@ + digits(n as nat, b as nat),
    decreases n,
{
    if n >= b {
        assert(n / b < n) by (nonlinear_arith)
            requires
                n >= b,
                b >= 2,
        ;
        push_digits(out, n / b, b);
    }
    let ghost mid = out@;
    out.push(digit_to_char(n % b));
    proof {
        if n >= b {
            assert(out@ =~= old(out)@ + digits(n as nat, b as nat));
        } else {
            assert(n % b == n) by (nonlinear_arith)
                requires
                    n < b,
            ;
            assert(out@ =~= old(out)@ + digits(n as nat, b as nat));
        }
    }
}

/// `format!("{:0width$}", n)` as characters.
pub fn padded_decimal(n: u64, width: usize) -> (r: Vec<char>)
    ensures
        r@ == zero_pad(dec(n as nat), width as nat),
{
    let mut d: Vec<char> = Vec::new();
    push_digits(&mut d, n, 10);
    assert(d@ =~= dec(n as nat));
    if d.len() < width {
        let mut r: Vec<char> = Vec::new();
        let k = width - d.len();
        for i in 0..k
            invariant
                r@ == Seq::new(i as nat, |j: int| '0'),
        {
            r.push('0');
            assert(r@ =~= Seq::new((i + 1) as nat, |j: int| '0'));
        }
        let ghost zeros = r@;
        crate::strs::extend_chars(&mut r, &d);
        assert(r@ =~= zero_pad(dec(n as nat), width as nat));
        r
    } else {
        d
    }
}

} // verus!
