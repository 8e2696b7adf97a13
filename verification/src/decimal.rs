//! ASCII decimal numerals: zero-padded formatting and fixed-width parsing.
use vstd::prelude::*;

verus! {

/// The ASCII digit of `d` (0..=9).
pub open spec fn digit_char(d: int) -> u8 {
    (d + 48) as u8
}

/// An ASCII decimal digit.
pub open spec fn is_digit(b: u8) -> bool {
    48 <= b <= 57
}

/// The decimal numeral of `v`, without leading zeros ("0" for zero).
pub open spec fn decimal_digits(v: nat) -> Seq<u8>
    decreases v,
{
    if v < 10 {
        seq![digit_char(v as int)]
    } else {
        decimal_digits(v / 10).push(digit_char((v % 10) as int))
    }
}

/// The decimal numeral of `v`, left-padded with '0' to at least `width` bytes.
pub open spec fn zero_padded(v: nat, width: nat) -> Seq<u8> {
    let ds = decimal_digits(v);
    if ds.len() >= width {
        ds
    } else {
        Seq::new((width - ds.len()) as nat, |i: int| 48u8) + ds
    }
}

/// The value of a string of ASCII digits.
pub open spec fn digits_value(s: Seq<u8>) -> int
    decreases s.len(),
{
    if s.len() == 0 {
        0
    } else {
        digits_value(s.drop_last()) * 10 + (s.last() - 48)
    }
}

/// Every byte is an ASCII digit.
pub open spec fn all_digits(s: Seq<u8>) -> bool {
    forall|i: int| 0 <= i < s.len() ==> is_digit(#[trigger] s[i])
}

/// Appends the decimal numeral of `v`.
pub fn push_decimal(out: &mut Vec<u8>, v: u64)
    ensures
        final(out)@ == old(out)@ + decimal_digits(v as nat),
    decreases v,
{
    if v >= 10 {
        push_decimal(out, v / 10);
    }
    out.push((v % 10) as u8 + 48);
    proof {
        assert(old(out)@ + decimal_digits(v as nat) =~= final(out)@) by {
            if v >= 10 {
                assert(decimal_digits(v as nat) == decimal_digits((v / 10) as nat).push(
                    digit_char((v % 10) as int),
                ));
            }
        }
    }
}

/// Number of digits of the decimal numeral of `v`.
pub fn decimal_len(v: u64) -> (n: usize)
    ensures
        n == decimal_digits(v as nat).len(),
        1 <= n <= 20,
    decreases v,
{
    if v >= 10 {
        let n = decimal_len(v / 10);
        proof {
            lemma_decimal_len_bound(v as nat);
        }
        n + 1
    } else {
        1
    }
}

proof fn lemma_decimal_len_le(v: nat, k: nat)
    requires
        k >= 1,
        v < pow10(k),
    ensures
        1 <= decimal_digits(v).len() <= k,
    decreases v,
{
    if v >= 10 {
        assert(k >= 2) by {
            if k == 1 {
                assert(pow10(1) == 10 * pow10(0));
            }
        }
        assert(v / 10 < pow10((k - 1) as nat));
        lemma_decimal_len_le(v / 10, (k - 1) as nat);
    }
}

proof fn lemma_decimal_len_bound(v: nat)
    ensures
        1 <= decimal_digits(v).len(),
        v <= u64::MAX ==> decimal_digits(v).len() <= 20,
{
    reveal_with_fuel(pow10, 21);
    assert(pow10(20) == 100_000_000_000_000_000_000);
    if v <= u64::MAX {
        lemma_decimal_len_le(v, 20);
    } else {
        lemma_pow10_above(v);
        lemma_decimal_len_le(v, v + 1);
    }
}

/// Appends the decimal numeral of `v`, left-padded with '0' to `width` bytes
/// (as the `{:0width}` format does).
pub fn push_zero_padded(out: &mut Vec<u8>, v: u64, width: usize)
    ensures
        final(out)@ == old(out)@ + zero_padded(v as nat, width as nat),
{
    let n = decimal_len(v);
    let mut k: usize = n;
    let ghost start = out@;
    while k < width
        invariant
            n <= k,
            n == decimal_digits(v as nat).len(),
            k <= width || k == n,
            out@ == start + Seq::new((k - n) as nat, |i: int| 48u8),
        decreases width - k,
    {
        out.push(48u8);
        k = k + 1;
        assert(out@ =~= start + Seq::new((k - n) as nat, |i: int| 48u8));
    }
    let ghost mid = out@;
    push_decimal(out, v);
    proof {
        if n >= width {
            assert(mid =~= start);
        }
        assert(final(out)@ =~= old(out)@ + zero_padded(v as nat, width as nat));
    }
}

/// Reads the fixed-width decimal field `s[start..start + len]`: `None` unless
/// all its bytes are ASCII digits.
pub fn parse_digits(s: &[u8], start: usize, len: usize) -> (r: Option<u64>)
    requires
        start + len <= s.len(),
        len <= 19,
    ensures
        r is Some <==> all_digits(s@.subrange(start as int, start + len)),
        r matches Some(v) ==> v == digits_value(s@.subrange(start as int, start + len)),
{
    let mut acc: u64 = 0;
    let mut i: usize = 0;
    while i < len
        invariant
            start + len <= s.len(),
            len <= 19,
            i <= len,
            all_digits(s@.subrange(start as int, start + i)),
            acc == digits_value(s@.subrange(start as int, start + i)),
            acc < pow10(i as nat),
        decreases len - i,
    {
        let b = s[start + i];
        if b < 48 || b > 57 {
            assert(!is_digit(s@.subrange(start as int, start + len)[i as int]));
            return None;
        }
        proof {
            lemma_pow10_bound(i as nat);
            assert(s@.subrange(start as int, start + i + 1).drop_last()
                =~= s@.subrange(start as int, start + i));
        }
        acc = acc * 10 + (b - 48) as u64;
        i = i + 1;
    }
    Some(acc)
}

/// Ten to the power `n`.
pub open spec fn pow10(n: nat) -> int
    decreases n,
{
    if n == 0 { 1 } else { 10 * pow10((n - 1) as nat) }
}

proof fn lemma_pow10_mono(a: nat, b: nat)
    requires
        a <= b,
    ensures
        0 < pow10(a) <= pow10(b),
    decreases b,
{
    if a < b {
        lemma_pow10_mono(a, (b - 1) as nat);
    } else if a > 0 {
        lemma_pow10_mono((a - 1) as nat, (a - 1) as nat);
    }
}

proof fn lemma_pow10_above(v: nat)
    ensures
        v < pow10(v + 1),
    decreases v,
{
    if v > 0 {
        lemma_pow10_above((v - 1) as nat);
        lemma_pow10_mono(0, v);
        assert(pow10(v + 1) == 10 * pow10(v));
    } else {
        assert(pow10(1) == 10 * pow10(0));
    }
}

proof fn lemma_pow10_bound(n: nat)
    requires
        n <= 18,
    ensures
        pow10(n) <= 1_000_000_000_000_000_000,
        pow10(n) > 0,
{
    reveal_with_fuel(pow10, 19);
    assert(pow10(18) == 1_000_000_000_000_000_000);
    lemma_pow10_mono(n, 18);
}

/// The numeral that `zero_padded` writes reads back as its value.
pub proof fn lemma_zero_padded_value(v: nat, width: nat)
    ensures
        all_digits(zero_padded(v, width)),
        digits_value(zero_padded(v, width)) == v,
        zero_padded(v, width).len() == (if decimal_digits(v).len() >= width { decimal_digits(v).len() } else { width }),
{
    lemma_decimal_digits_value(v);
    let ds = decimal_digits(v);
    if ds.len() < width {
        lemma_zero_prefix_value(ds, (width - ds.len()) as nat);
    }
}

proof fn lemma_decimal_digits_value(v: nat)
    ensures
        all_digits(decimal_digits(v)),
        digits_value(decimal_digits(v)) == v,
    decreases v,
{
    if v >= 10 {
        lemma_decimal_digits_value(v / 10);
        let s = decimal_digits(v);
        assert(s.drop_last() =~= decimal_digits(v / 10));
        assert(digit_char((v % 10) as int) == v % 10 + 48);
        assert(s.last() == v % 10 + 48);
        assert(digits_value(s) == digits_value(s.drop_last()) * 10 + (s.last() - 48));
        assert(v == (v / 10) * 10 + v % 10);
    } else {
        let s = decimal_digits(v);
        assert(s.drop_last() =~= Seq::<u8>::empty());
        assert(digit_char(v as int) == v + 48);
        assert(digits_value(Seq::<u8>::empty()) == 0);
        assert(digits_value(s) == digits_value(s.drop_last()) * 10 + (s.last() - 48));
    }
}

proof fn lemma_zero_prefix_value(ds: Seq<u8>, z: nat)
    requires
        all_digits(ds),
    ensures
        all_digits(Seq::new(z, |i: int| 48u8) + ds),
        digits_value(Seq::new(z, |i: int| 48u8) + ds) == digits_value(ds),
    decreases ds.len() + z,
{
    let zs = Seq::new(z, |i: int| 48u8);
    let s = zs + ds;
    if ds.len() > 0 {
        lemma_zero_prefix_value(ds.drop_last(), z);
        assert(s.drop_last() =~= zs + ds.drop_last());
    } else if z > 0 {
        lemma_zero_prefix_value(ds, (z - 1) as nat);
        assert(s.drop_last() =~= Seq::new((z - 1) as nat, |i: int| 48u8) + ds);
    } else {
        assert(s =~= ds);
    }
}


/// A string of `n` digits reads as a value below ten to the `n`.
pub proof fn lemma_digits_value_bound(s: Seq<u8>)
    requires
        all_digits(s),
    ensures
        0 <= digits_value(s) < pow10(s.len()),
    decreases s.len(),
{
    if s.len() > 0 {
        lemma_digits_value_bound(s.drop_last());
        assert(is_digit(s[s.len() - 1]));
        assert(pow10(s.len()) == 10 * pow10((s.len() - 1) as nat));
    }
}


/// A value below ten to the `width` is written in exactly `width` bytes.
pub proof fn lemma_zero_padded_width(v: nat, width: nat)
    requires
        1 <= width,
        v < pow10(width),
    ensures
        zero_padded(v, width).len() == width,
        all_digits(zero_padded(v, width)),
        digits_value(zero_padded(v, width)) == v,
{
    lemma_decimal_len_le(v, width);
    lemma_zero_padded_value(v, width);
}

} // verus!
