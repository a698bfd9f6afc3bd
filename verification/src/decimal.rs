//! The decimal text form of integers, and the formatter that writes it.

use crate::escape::{escape, is_special, lemma_escape_plain};
use crate::text::utf8_len;
use vstd::prelude::*;
use vstd::utf8::*;

verus! {

/// The character of a decimal digit.
pub open spec fn digit(d: nat) -> char
    recommends
        d < 10,
{
    (48 + d) as u8 as char
}

/// The digits of `n` in base 10, most significant first, without leading
/// zeros; the single digit `0` for zero.
pub open spec fn decimal_digits(n: nat) -> Seq<char>
    decreases n,
{
    if n < 10 {
        seq![digit(n)]
    } else {
        decimal_digits(n / 10).push(digit(n % 10))
    }
}

/// The base-10 text form of `n`: its digits, after a `-` where it is
/// negative.
pub open spec fn decimal(n: int) -> Seq<char> {
    if n < 0 {
        seq!['-'] + decimal_digits((-n) as nat)
    } else {
        decimal_digits(n as nat)
    }
}

/// Ten to the power of `k`.
pub open spec fn pow10(k: nat) -> nat
    decreases k,
{
    if k == 0 {
        1
    } else {
        10 * pow10((k - 1) as nat)
    }
}

/// The number that a sequence of decimal digits stands for.
pub open spec fn digits_value(s: Seq<char>) -> nat
    decreases s.len(),
{
    if s.len() == 0 {
        0
    } else {
        (digits_value(s.drop_last()) * 10 + (s.last() as nat - 48)) as nat
    }
}

/// A number below ten to the `k` has at most `k` digits.
pub proof fn lemma_digits_len(n: nat, k: nat)
    requires
        k >= 1,
        n < pow10(k),
    ensures
        1 <= decimal_digits(n).len() <= k,
    decreases n,
{
    if n >= 10 {
        reveal_with_fuel(pow10, 2);
        lemma_digits_len(n / 10, (k - 1) as nat);
    }
}

/// The digits of a number are decimal digit characters, the first of them
/// `0` only for zero itself, and they stand for that number.
pub proof fn lemma_digits_shape(n: nat)
    ensures
        forall|i: int|
            0 <= i < decimal_digits(n).len() ==> '0' <= #[trigger] decimal_digits(n)[i] <= '9',
        decimal_digits(n)[0] == '0' <==> n == 0,
        digits_value(decimal_digits(n)) == n,
    decreases n,
{
    if n < 10 {
        let s = decimal_digits(n);
        assert(digits_value(s.drop_last()) == 0);
    } else {
        lemma_digits_shape(n / 10);
        let s = decimal_digits(n);
        assert(s.drop_last() =~= decimal_digits(n / 10));
    }
}

/// The text form of an integer is the standard one: a `-` first where it is
/// negative and nowhere else, then the digits of its magnitude, which begin
/// with `0` only for zero and stand for that magnitude.
pub proof fn lemma_decimal_standard(n: int)
    ensures
        n < 0 ==> decimal(n) == seq!['-'] + decimal(-n),
        n >= 0 ==> decimal(n) == decimal_digits(n as nat),
        n >= 0 ==> (decimal(n)[0] == '0' <==> n == 0),
        n >= 0 ==> digits_value(decimal(n)) == n,
        n >= 0 ==> forall|i: int|
            0 <= i < decimal(n).len() ==> '0' <= #[trigger] decimal(n)[i] <= '9',
{
    if n >= 0 {
        lemma_digits_shape(n as nat);
    }
}

/// The text form of an integer is made of ASCII characters, one byte each.
pub proof fn lemma_decimal_ascii(n: int)
    ensures
        is_ascii_chars(decimal(n)),
        utf8_len(decimal(n)) == decimal(n).len(),
        forall|i: int|
            0 <= i < decimal(n).len() ==> {
                let c = #[trigger] decimal(n)[i];
                c == '-' || '0' <= c <= '9'
            },
{
    if n < 0 {
        lemma_digits_shape((-n) as nat);
    } else {
        lemma_digits_shape(n as nat);
    }
    is_ascii_chars_encode_utf8(decimal(n));
}

/// The text form of an integer holds no special character, so it is its own
/// escaped form.
pub proof fn lemma_decimal_plain(n: int)
    ensures
        escape(decimal(n)) == decimal(n),
{
    lemma_decimal_ascii(n);
    assert forall|i: int| 0 <= i < decimal(n).len() implies !is_special(
        #[trigger] decimal(n)[i],
    ) by {}
    lemma_escape_plain(decimal(n));
}

/// The powers of ten that bound the integer types.
pub proof fn lemma_pow10_values()
    ensures
        pow10(3) == 1_000,
        pow10(5) == 100_000,
        pow10(10) == 10_000_000_000,
        pow10(20) == 100_000_000_000_000_000_000,
        pow10(39) == 1_000_000_000_000_000_000_000_000_000_000_000_000_000,
{
    reveal_with_fuel(pow10, 6);
    assert(pow10(10) == 100_000 * pow10(5));
    assert(pow10(15) == 100_000 * pow10(10));
    assert(pow10(20) == 100_000 * pow10(15));
    assert(pow10(25) == 100_000 * pow10(20));
    assert(pow10(30) == 100_000 * pow10(25));
    assert(pow10(35) == 100_000 * pow10(30));
    assert(pow10(39) == 10_000 * pow10(35));
}

/// An integer strictly between minus ten to the `k` and ten to the `k` takes
/// at most `k` bytes as text, and one more for the sign where it is negative.
pub proof fn lemma_decimal_len(n: int, k: nat)
    requires
        k >= 1,
        -pow10(k) < n < pow10(k),
    ensures
        1 <= utf8_len(decimal(n)) <= (if n < 0 {
            k + 1
        } else {
            k
        }),
{
    lemma_decimal_ascii(n);
    if n < 0 {
        lemma_digits_len((-n) as nat, k);
    } else {
        lemma_digits_len(n as nat, k);
    }
}

/// Whether the first `count` bytes of `scratch` are the text form of `n`.
pub open spec fn holds_decimal(scratch: Seq<u8>, count: usize, n: int) -> bool {
    &&& count == utf8_len(decimal(n))
    &&& scratch.subrange(0, count as int) == encode_utf8(decimal(n))
}

/// `itoap::write` at `u8`: formats `value` in base 10 and copies the text
/// to the start of `scratch`, which has room for any such text. It returns
/// the number of bytes written.
#[verifier::external_body]
pub(crate) fn write_u8(scratch: &mut [u8; 40], value: u8) -> (count: usize)
    ensures
        holds_decimal(final(scratch)@, count, value as int),
{
    itoap::write(&mut scratch[..], value).unwrap_or(0)
}

/// `itoap::write` at `u16`: formats `value` in base 10 and copies the text
/// to the start of `scratch`, which has room for any such text. It returns
/// the number of bytes written.
#[verifier::external_body]
pub(crate) fn write_u16(scratch: &mut [u8; 40], value: u16) -> (count: usize)
    ensures
        holds_decimal(final(scratch)@, count, value as int),
{
    itoap::write(&mut scratch[..], value).unwrap_or(0)
}

/// `itoap::write` at `u32`: formats `value` in base 10 and copies the text
/// to the start of `scratch`, which has room for any such text. It returns
/// the number of bytes written.
#[verifier::external_body]
pub(crate) fn write_u32(scratch: &mut [u8; 40], value: u32) -> (count: usize)
    ensures
        holds_decimal(final(scratch)@, count, value as int),
{
    itoap::write(&mut scratch[..], value).unwrap_or(0)
}

/// `itoap::write` at `u64`: formats `value` in base 10 and copies the text
/// to the start of `scratch`, which has room for any such text. It returns
/// the number of bytes written.
#[verifier::external_body]
pub(crate) fn write_u64(scratch: &mut [u8; 40], value: u64) -> (count: usize)
    ensures
        holds_decimal(final(scratch)@, count, value as int),
{
    itoap::write(&mut scratch[..], value).unwrap_or(0)
}

/// `itoap::write` at `u128`: formats `value` in base 10 and copies the text
/// to the start of `scratch`, which has room for any such text. It returns
/// the number of bytes written.
#[verifier::external_body]
pub(crate) fn write_u128(scratch: &mut [u8; 40], value: u128) -> (count: usize)
    ensures
        holds_decimal(final(scratch)@, count, value as int),
{
    itoap::write(&mut scratch[..], value).unwrap_or(0)
}

/// `itoap::write` at `usize`: formats `value` in base 10 and copies the text
/// to the start of `scratch`, which has room for any such text. It returns
/// the number of bytes written.
#[verifier::external_body]
pub(crate) fn write_usize(scratch: &mut [u8; 40], value: usize) -> (count: usize)
    ensures
        holds_decimal(final(scratch)@, count, value as int),
{
    itoap::write(&mut scratch[..], value).unwrap_or(0)
}

/// `itoap::write` at `i8`: formats `value` in base 10, with a leading `-`
/// where it is negative, and copies the text to the start of `scratch`,
/// which has room for any such text. It returns the number of bytes
/// written.
#[verifier::external_body]
pub(crate) fn write_i8(scratch: &mut [u8; 40], value: i8) -> (count: usize)
    ensures
        holds_decimal(final(scratch)@, count, value as int),
{
    itoap::write(&mut scratch[..], value).unwrap_or(0)
}

/// `itoap::write` at `i16`: formats `value` in base 10, with a leading `-`
/// where it is negative, and copies the text to the start of `scratch`,
/// which has room for any such text. It returns the number of bytes
/// written.
#[verifier::external_body]
pub(crate) fn write_i16(scratch: &mut [u8; 40], value: i16) -> (count: usize)
    ensures
        holds_decimal(final(scratch)@, count, value as int),
{
    itoap::write(&mut scratch[..], value).unwrap_or(0)
}

/// `itoap::write` at `i32`: formats `value` in base 10, with a leading `-`
/// where it is negative, and copies the text to the start of `scratch`,
/// which has room for any such text. It returns the number of bytes
/// written.
#[verifier::external_body]
pub(crate) fn write_i32(scratch: &mut [u8; 40], value: i32) -> (count: usize)
    ensures
        holds_decimal(final(scratch)@, count, value as int),
{
    itoap::write(&mut scratch[..], value).unwrap_or(0)
}

/// `itoap::write` at `i64`: formats `value` in base 10, with a leading `-`
/// where it is negative, and copies the text to the start of `scratch`,
/// which has room for any such text. It returns the number of bytes
/// written.
#[verifier::external_body]
pub(crate) fn write_i64(scratch: &mut [u8; 40], value: i64) -> (count: usize)
    ensures
        holds_decimal(final(scratch)@, count, value as int),
{
    itoap::write(&mut scratch[..], value).unwrap_or(0)
}

/// `itoap::write` at `i128`: formats `value` in base 10, with a leading `-`
/// where it is negative, and copies the text to the start of `scratch`,
/// which has room for any such text. It returns the number of bytes
/// written.
#[verifier::external_body]
pub(crate) fn write_i128(scratch: &mut [u8; 40], value: i128) -> (count: usize)
    ensures
        holds_decimal(final(scratch)@, count, value as int),
{
    itoap::write(&mut scratch[..], value).unwrap_or(0)
}

/// `itoap::write` at `isize`: formats `value` in base 10, with a leading `-`
/// where it is negative, and copies the text to the start of `scratch`,
/// which has room for any such text. It returns the number of bytes
/// written.
#[verifier::external_body]
pub(crate) fn write_isize(scratch: &mut [u8; 40], value: isize) -> (count: usize)
    ensures
        holds_decimal(final(scratch)@, count, value as int),
{
    itoap::write(&mut scratch[..], value).unwrap_or(0)
}

} // verus!
