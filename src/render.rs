//! Zero-padded digit strings, byte fields and row labels, as ASCII bytes.
use vstd::prelude::*;
use vstd::arithmetic::div_mod::{lemma_div_decreases, lemma_fundamental_div_mod};
use vstd::arithmetic::power::pow;

use crate::mode::{Mode, radix_of, width_of};

verus! {

/// The ASCII space character.
pub const SPACE: u8 = 32;

/// The ASCII line feed character.
pub const NEWLINE: u8 = 10;

/// Base of a row label.
pub const LABEL_RADIX: u64 = 16;

/// Minimum number of digits in a row label.
pub const LABEL_WIDTH: usize = 8;

/// The lowercase ASCII digit for a digit value below sixteen.
pub open spec fn digit_char(d: nat) -> u8 {
    if d < 10 {
        (48 + d) as u8
    } else {
        (87 + d) as u8
    }
}

/// The value of a lowercase ASCII digit (`0`-`9`, `a`-`f`).
pub open spec fn digit_value(c: u8) -> nat {
    if 48 <= c && c <= 57 {
        (c - 48) as nat
    } else {
        (c - 87) as nat
    }
}

/// Whether `c` is a lowercase digit of a value below `base`.
pub open spec fn is_digit_of(c: u8, base: nat) -> bool {
    ((48 <= c && c <= 57) || (97 <= c && c <= 102)) && digit_value(c) < base
}

/// The number written by a string of digits in `base`, most significant first.
pub open spec fn digits_value(s: Seq<u8>, base: nat) -> nat
    decreases s.len(),
{
    if s.len() == 0 {
        0
    } else {
        digits_value(s.drop_last(), base) * base + digit_value(s.last())
    }
}

/// The digits of `n` in `base` (two to sixteen), at least one, most significant
/// first, with zeros on the left up to `width` digits.
pub open spec fn padded_digits(n: nat, base: nat, width: nat) -> Seq<u8>
    decreases n + width,
{
    if base < 2 {
        Seq::empty()
    } else if n < base && width <= 1 {
        seq![digit_char(n)]
    } else {
        proof {
            if n >= base {
                lemma_div_decreases(n as int, base as int);
            }
        }
        padded_digits(n / base, base, if width > 0 { (width - 1) as nat } else { 0 })
            + seq![digit_char(n % base)]
    }
}

/// Two spaces, which follow every label and every field.
pub open spec fn gap() -> Seq<u8> {
    seq![SPACE, SPACE]
}

/// The rendering of one byte: its digits in the mode's base and width, then two spaces.
pub open spec fn field(m: Mode, b: u8) -> Seq<u8> {
    padded_digits(b as nat, radix_of(m), width_of(m)) + gap()
}

/// The start of a row: a line feed, the offset in at least eight lowercase hex
/// digits, then two spaces.
pub open spec fn row_label(offset: nat) -> Seq<u8> {
    seq![NEWLINE] + padded_digits(offset, LABEL_RADIX as nat, LABEL_WIDTH as nat) + gap()
}

/// A digit's value reads back from its character.
pub proof fn lemma_digit_round_trip(d: nat)
    requires
        d < 16,
    ensures
        digit_value(digit_char(d)) == d,
        is_digit_of(digit_char(d), d + 1),
{
}

/// The padded digits of `n` are digits of `base`, at least one of them, and
/// they read back as `n`; when `n` is below `base` to the power `width`, there
/// are exactly `width` of them.
pub proof fn lemma_padded_digits(n: nat, base: nat, width: nat)
    requires
        2 <= base <= 16,
    ensures
        padded_digits(n, base, width).len() >= 1,
        forall|i: int|
            0 <= i < padded_digits(n, base, width).len() ==> is_digit_of(
                #[trigger] padded_digits(n, base, width)[i],
                base,
            ),
        digits_value(padded_digits(n, base, width), base) == n,
        width >= 1 && n < pow(base as int, width) ==> padded_digits(n, base, width).len() == width,
    decreases n + width,
{
    reveal(pow);
    let s = padded_digits(n, base, width);
    if n < base && width <= 1 {
        lemma_digit_round_trip(n);
        assert(s.drop_last() =~= Seq::<u8>::empty());
        assert(digits_value(s.drop_last(), base) == 0);
        assert(0 * base == 0);
        assert(digits_value(s, base) == digit_value(digit_char(n)));
        if width >= 1 {
            assert(pow(base as int, 1) == base * pow(base as int, 0));
        }
    } else {
        if n >= base {
            lemma_div_decreases(n as int, base as int);
        }
        let rest: nat = if width > 0 { (width - 1) as nat } else { 0 };
        let q = n / base;
        let r = n % base;
        lemma_fundamental_div_mod(n as int, base as int);
        lemma_padded_digits(q, base, rest);
        let p = padded_digits(q, base, rest);
        assert(s == p + seq![digit_char(r)]);
        assert(s.drop_last() =~= p);
        lemma_digit_round_trip(r);
        assert(digits_value(s, base) == q * base + r);
        assert(forall|i: int| 0 <= i < p.len() ==> s[i] == #[trigger] p[i]);
        if width >= 1 && n < pow(base as int, width) {
            if width == 1 {
                assert(pow(base as int, 1) == base * pow(base as int, 0));
            }
            assert(width >= 2);
            let pr = pow(base as int, rest);
            assert(pow(base as int, width) == base * pr);
            assert(q < pr) by (nonlinear_arith)
                requires
                    n == base * q + r,
                    0 <= r,
                    n < base * pr,
                    base > 0,
            ;
        }
    }
}

/// Every byte field has the mode's fixed layout: exactly as many digits of the
/// mode's base as its width, which read back as the byte, then two spaces.
pub proof fn lemma_field_layout(m: Mode, b: u8)
    ensures
        field(m, b).len() == width_of(m) + 2,
        forall|i: int| 0 <= i < width_of(m) ==> is_digit_of(#[trigger] field(m, b)[i], radix_of(m)),
        digits_value(field(m, b).take(width_of(m) as int), radix_of(m)) == b,
        field(m, b)[width_of(m) as int] == SPACE,
        field(m, b)[width_of(m) + 1int] == SPACE,
{
    reveal_with_fuel(pow, 9);
    let d = padded_digits(b as nat, radix_of(m), width_of(m));
    lemma_padded_digits(b as nat, radix_of(m), width_of(m));
    assert(field(m, b).take(width_of(m) as int) =~= d);
}

/// Distinct bytes have distinct fields in every mode.
pub proof fn lemma_field_injective(m: Mode, a: u8, b: u8)
    ensures
        (field(m, a) == field(m, b)) == (a == b),
{
    lemma_field_layout(m, a);
    lemma_field_layout(m, b);
}

/// The ASCII digit for `d`.
pub fn digit_byte(d: u64) -> (r: u8)
    requires
        d < 16,
    ensures
        r == digit_char(d as nat),
{
    if d < 10 {
        48 + d as u8
    } else {
        87 + d as u8
    }
}

/// Appends the digits of `n` in `base`, zero-padded to `width`.
pub fn push_padded(out: &mut Vec<u8>, n: u64, base: u64, width: usize)
    requires
        2 <= base <= 16,
    ensures
        final(out)@ == old(out)@ + padded_digits(n as nat, base as nat, width as nat),
    decreases n as int + width as int,
{
    if n < base && width <= 1 {
        out.push(digit_byte(n));
    } else {
        proof {
            if n >= base {
                lemma_div_decreases(n as int, base as int);
            }
        }
        let rest: usize = if width > 0 { width - 1 } else { 0 };
        push_padded(out, n / base, base, rest);
        out.push(digit_byte(n % base));
        proof {
            assert(final(out)@ =~= old(out)@ + padded_digits(n as nat, base as nat, width as nat));
        }
    }
}

/// Appends the field of byte `b` in mode `m`.
pub fn push_field(out: &mut Vec<u8>, m: Mode, b: u8)
    ensures
        final(out)@ == old(out)@ + field(m, b),
{
    push_padded(out, b as u64, m.radix(), m.width());
    out.push(SPACE);
    out.push(SPACE);
    proof {
        assert(final(out)@ =~= old(out)@ + field(m, b));
    }
}

/// Appends the label that starts the row at `offset`.
pub fn push_row_label(out: &mut Vec<u8>, offset: u64)
    ensures
        final(out)@ == old(out)@ + row_label(offset as nat),
{
    out.push(NEWLINE);
    push_padded(out, offset, LABEL_RADIX, LABEL_WIDTH);
    out.push(SPACE);
    out.push(SPACE);
    proof {
        assert(final(out)@ =~= old(out)@ + row_label(offset as nat));
    }
}

} // verus!
