//! Rendering of IEEE 754 binary floating-point values, given by their bits.
//!
//! The library reads a value off its bits and decides what is rendered for
//! it. The decimal digits of a finite value come from the caller, who has a
//! floating-point formatter at hand.

use crate::buffer::Buffer;
use crate::escape::{
    escape, escape_to_buf, escaped_capacity, is_special, lemma_escape_plain,
    lemma_escaped_capacity_fits,
};
use crate::text::utf8_len;
use vstd::prelude::*;

verus! {

/// What a floating-point value is, as far as rendering goes.
#[derive(Clone, Copy, Debug, PartialEq, Eq, Structural)]
pub enum FloatKind {
    /// A number, zero included.
    Finite,
    /// Not a number.
    Nan,
    /// Positive infinity.
    Infinite,
    /// Negative infinity.
    NegInfinite,
}

/// The kind of the 32-bit value with these bits: one sign bit, eight
/// exponent bits, 23 fraction bits. An exponent of all ones marks what is
/// not finite; a fraction other than zero then marks what is not a number.
pub open spec fn kind_of_binary32(bits: u32) -> FloatKind {
    if (bits >> 23) & 0xff != 0xff {
        FloatKind::Finite
    } else if bits & 0x7f_ffff != 0 {
        FloatKind::Nan
    } else if bits >> 31 == 0 {
        FloatKind::Infinite
    } else {
        FloatKind::NegInfinite
    }
}

/// The kind of the 64-bit value with these bits: one sign bit, eleven
/// exponent bits, 52 fraction bits.
pub open spec fn kind_of_binary64(bits: u64) -> FloatKind {
    if (bits >> 52) & 0x7ff != 0x7ff {
        FloatKind::Finite
    } else if bits & 0xf_ffff_ffff_ffff != 0 {
        FloatKind::Nan
    } else if bits >> 63 == 0 {
        FloatKind::Infinite
    } else {
        FloatKind::NegInfinite
    }
}

/// The text form of a value of kind `kind` whose decimal digits, where it is
/// finite, are `digits`.
pub open spec fn float_text(kind: FloatKind, digits: Seq<char>) -> Seq<char> {
    match kind {
        FloatKind::Finite => digits,
        FloatKind::Nan => seq!['N', 'a', 'N'],
        FloatKind::Infinite => seq!['i', 'n', 'f'],
        FloatKind::NegInfinite => seq!['-', 'i', 'n', 'f'],
    }
}

/// The kind of the 32-bit value with the bits `bits`.
pub fn classify_binary32(bits: u32) -> (kind: FloatKind)
    ensures
        kind == kind_of_binary32(bits),
{
    if (bits >> 23) & 0xff != 0xff {
        FloatKind::Finite
    } else if bits & 0x7f_ffff != 0 {
        FloatKind::Nan
    } else if bits >> 31 == 0 {
        FloatKind::Infinite
    } else {
        FloatKind::NegInfinite
    }
}

/// The kind of the 64-bit value with the bits `bits`.
pub fn classify_binary64(bits: u64) -> (kind: FloatKind)
    ensures
        kind == kind_of_binary64(bits),
{
    if (bits >> 52) & 0x7ff != 0x7ff {
        FloatKind::Finite
    } else if bits & 0xf_ffff_ffff_ffff != 0 {
        FloatKind::Nan
    } else if bits >> 63 == 0 {
        FloatKind::Infinite
    } else {
        FloatKind::NegInfinite
    }
}

/// The capacity that a buffer of `capacity` bytes, `len` of them live, has
/// after a value of kind `kind` was rendered whose text takes `size` bytes:
/// for a finite one `reserve` bytes are made sure of before the digits are
/// appended, which leaves the capacity at that reservation where the digits
/// are within it; for the others the literal is appended as any text is.
pub open spec fn float_capacity(
    capacity: nat,
    len: nat,
    kind: FloatKind,
    reserve: nat,
    size: nat,
) -> nat {
    if kind == FloatKind::Finite {
        Buffer::capacity_after(Buffer::capacity_after(capacity, len, reserve), len, size)
    } else {
        Buffer::capacity_after(capacity, len, size)
    }
}

/// Appends the text form of a value of kind `kind`: for a finite one its
/// `digits`, after reserving `reserve` bytes for them; for the others their
/// literal.
fn render_float(kind: FloatKind, reserve: usize, digits: &str, b: &mut Buffer)
    requires
        reserve <= crate::buffer::RESERVE_MAX,
        old(b).has_room(utf8_len(float_text(kind, digits@))),
    ensures
        final(b)@ == old(b)@ + float_text(kind, digits@),
        final(b).spec_len() == old(b).spec_len() + utf8_len(float_text(kind, digits@)),
        final(b).spec_capacity() == float_capacity(
            old(b).spec_capacity(),
            old(b).spec_len(),
            kind,
            reserve as nat,
            utf8_len(float_text(kind, digits@)),
        ),
{
    proof {
        reveal_strlit("NaN");
        reveal_strlit("inf");
        reveal_strlit("-inf");
    }
    match kind {
        FloatKind::Finite => {
            b.reserve(reserve);
            b.push_str(digits);
        },
        FloatKind::Nan => {
            assert("NaN"@ =~= float_text(kind, digits@));
            b.push_str("NaN");
        },
        FloatKind::Infinite => {
            assert("inf"@ =~= float_text(kind, digits@));
            b.push_str("inf");
        },
        FloatKind::NegInfinite => {
            assert("-inf"@ =~= float_text(kind, digits@));
            b.push_str("-inf");
        },
    }
}

/// Renders the 32-bit value with the bits `bits`. `digits` is the shortest
/// decimal form that reads back as that value; it is rendered where the
/// value is finite, after reserving the 16 bytes that hold any such form,
/// and not looked at otherwise.
pub fn render_binary32(bits: u32, digits: &str, b: &mut Buffer)
    requires
        old(b).has_room(utf8_len(float_text(kind_of_binary32(bits), digits@))),
    ensures
        final(b)@ == old(b)@ + float_text(kind_of_binary32(bits), digits@),
        final(b).spec_len() == old(b).spec_len() + utf8_len(
            float_text(kind_of_binary32(bits), digits@),
        ),
        final(b).spec_capacity() == float_capacity(
            old(b).spec_capacity(),
            old(b).spec_len(),
            kind_of_binary32(bits),
            16,
            utf8_len(float_text(kind_of_binary32(bits), digits@)),
        ),
{
    render_float(classify_binary32(bits), 16, digits, b)
}

/// Renders the 64-bit value with the bits `bits`. `digits` is the shortest
/// decimal form that reads back as that value; it is rendered where the
/// value is finite, after reserving the 24 bytes that hold any such form,
/// and not looked at otherwise.
pub fn render_binary64(bits: u64, digits: &str, b: &mut Buffer)
    requires
        old(b).has_room(utf8_len(float_text(kind_of_binary64(bits), digits@))),
    ensures
        final(b)@ == old(b)@ + float_text(kind_of_binary64(bits), digits@),
        final(b).spec_len() == old(b).spec_len() + utf8_len(
            float_text(kind_of_binary64(bits), digits@),
        ),
        final(b).spec_capacity() == float_capacity(
            old(b).spec_capacity(),
            old(b).spec_len(),
            kind_of_binary64(bits),
            24,
            utf8_len(float_text(kind_of_binary64(bits), digits@)),
        ),
{
    render_float(classify_binary64(bits), 24, digits, b)
}

/// The capacity that a buffer of `capacity` bytes, `len` of them live, has
/// after a value of kind `kind` with the digits `digits` was rendered
/// escaped: as `float_capacity` says, but that the digits of a finite value
/// are appended escaped, character by character.
pub open spec fn float_capacity_escaped(
    capacity: nat,
    len: nat,
    kind: FloatKind,
    reserve: nat,
    digits: Seq<char>,
) -> nat {
    if kind == FloatKind::Finite {
        escaped_capacity(Buffer::capacity_after(capacity, len, reserve), len, digits)
    } else {
        Buffer::capacity_after(capacity, len, utf8_len(float_text(kind, digits)))
    }
}

/// Appends the escaped text form of a value of kind `kind`: for a finite one
/// its `digits`, escaped, after reserving `reserve` bytes; for the others
/// their literal, which holds nothing to escape.
fn render_float_escaped(kind: FloatKind, reserve: usize, digits: &str, b: &mut Buffer)
    requires
        reserve <= crate::buffer::RESERVE_MAX,
        old(b).has_room(utf8_len(escape(float_text(kind, digits@)))),
    ensures
        final(b)@ == old(b)@ + escape(float_text(kind, digits@)),
        final(b).spec_len() == old(b).spec_len() + utf8_len(
            escape(float_text(kind, digits@)),
        ),
        final(b).spec_capacity() == float_capacity_escaped(
            old(b).spec_capacity(),
            old(b).spec_len(),
            kind,
            reserve as nat,
            digits@,
        ),
{
    match kind {
        FloatKind::Finite => {
            b.reserve(reserve);
            escape_to_buf(digits, b);
        },
        _ => {
            proof {
                lemma_escape_plain(float_text(kind, digits@));
            }
            render_float(kind, reserve, digits, b);
        },
    }
}

/// Renders the 32-bit value with the bits `bits` escaped: as
/// `render_binary32` does, but that `digits` is escaped. Digits that hold no
/// special character, as those of a formatter do, come out as they are.
pub fn render_binary32_escaped(bits: u32, digits: &str, b: &mut Buffer)
    requires
        old(b).has_room(utf8_len(escape(float_text(kind_of_binary32(bits), digits@)))),
    ensures
        final(b)@ == old(b)@ + escape(float_text(kind_of_binary32(bits), digits@)),
        final(b).spec_len() == old(b).spec_len() + utf8_len(
            escape(float_text(kind_of_binary32(bits), digits@)),
        ),
        final(b).spec_capacity() == float_capacity_escaped(
            old(b).spec_capacity(),
            old(b).spec_len(),
            kind_of_binary32(bits),
            16,
            digits@,
        ),
{
    render_float_escaped(classify_binary32(bits), 16, digits, b)
}

/// Renders the 64-bit value with the bits `bits` escaped: as
/// `render_binary64` does, but that `digits` is escaped. Digits that hold no
/// special character, as those of a formatter do, come out as they are.
pub fn render_binary64_escaped(bits: u64, digits: &str, b: &mut Buffer)
    requires
        old(b).has_room(utf8_len(escape(float_text(kind_of_binary64(bits), digits@)))),
    ensures
        final(b)@ == old(b)@ + escape(float_text(kind_of_binary64(bits), digits@)),
        final(b).spec_len() == old(b).spec_len() + utf8_len(
            escape(float_text(kind_of_binary64(bits), digits@)),
        ),
        final(b).spec_capacity() == float_capacity_escaped(
            old(b).spec_capacity(),
            old(b).spec_len(),
            kind_of_binary64(bits),
            24,
            digits@,
        ),
{
    render_float_escaped(classify_binary64(bits), 24, digits, b)
}

/// A finite value whose digits are within the reservation leaves the
/// capacity where the reservation alone leaves it.
pub proof fn lemma_float_capacity_reserved(capacity: nat, len: nat, reserve: nat, size: nat)
    requires
        len <= capacity,
        size <= reserve,
    ensures
        float_capacity(capacity, len, FloatKind::Finite, reserve, size) == Buffer::capacity_after(
            capacity,
            len,
            reserve,
        ),
{
}

/// The escaped render of a value leaves what the raw render leaves, in text
/// and in capacity, where its digits hold no special character and are
/// within the reservation.
pub proof fn lemma_float_escaped_is_raw(
    capacity: nat,
    len: nat,
    kind: FloatKind,
    reserve: nat,
    digits: Seq<char>,
)
    requires
        len <= capacity,
        utf8_len(digits) <= reserve,
        forall|i: int| 0 <= i < digits.len() ==> !is_special(#[trigger] digits[i]),
    ensures
        escape(float_text(kind, digits)) == float_text(kind, digits),
        float_capacity_escaped(capacity, len, kind, reserve, digits) == float_capacity(
            capacity,
            len,
            kind,
            reserve,
            utf8_len(float_text(kind, digits)),
        ),
{
    lemma_float_text_plain(kind, digits);
    if kind == FloatKind::Finite {
        lemma_escape_plain(digits);
        lemma_escaped_capacity_fits(Buffer::capacity_after(capacity, len, reserve), len, digits);
    }
}

/// The text form of a value holds no special character where its digits hold
/// none: it is its own escaped form.
pub proof fn lemma_float_text_plain(kind: FloatKind, digits: Seq<char>)
    requires
        forall|i: int| 0 <= i < digits.len() ==> !is_special(#[trigger] digits[i]),
    ensures
        escape(float_text(kind, digits)) == float_text(kind, digits),
{
    lemma_escape_plain(float_text(kind, digits));
}

/// The bits of the two infinities and of the usual not-a-number, at both
/// widths, are of these kinds; the bits of zero are finite.
pub proof fn lemma_kinds_of_special_bits()
    ensures
        kind_of_binary32(0x7f80_0000) == FloatKind::Infinite,
        kind_of_binary32(0xff80_0000) == FloatKind::NegInfinite,
        kind_of_binary32(0x7fc0_0000) == FloatKind::Nan,
        kind_of_binary32(0) == FloatKind::Finite,
        kind_of_binary64(0x7ff0_0000_0000_0000) == FloatKind::Infinite,
        kind_of_binary64(0xfff0_0000_0000_0000) == FloatKind::NegInfinite,
        kind_of_binary64(0x7ff8_0000_0000_0000) == FloatKind::Nan,
        kind_of_binary64(0) == FloatKind::Finite,
{
    assert((0x7f80_0000u32 >> 23) & 0xff == 0xff && 0x7f80_0000u32 & 0x7f_ffff == 0
        && 0x7f80_0000u32 >> 31 == 0) by (bit_vector);
    assert((0xff80_0000u32 >> 23) & 0xff == 0xff && 0xff80_0000u32 & 0x7f_ffff == 0
        && 0xff80_0000u32 >> 31 == 1) by (bit_vector);
    assert((0x7fc0_0000u32 >> 23) & 0xff == 0xff && 0x7fc0_0000u32 & 0x7f_ffff != 0)
        by (bit_vector);
    assert((0u32 >> 23) & 0xff == 0) by (bit_vector);
    assert((0x7ff0_0000_0000_0000u64 >> 52) & 0x7ff == 0x7ff && 0x7ff0_0000_0000_0000u64
        & 0xf_ffff_ffff_ffff == 0 && 0x7ff0_0000_0000_0000u64 >> 63 == 0) by (bit_vector);
    assert((0xfff0_0000_0000_0000u64 >> 52) & 0x7ff == 0x7ff && 0xfff0_0000_0000_0000u64
        & 0xf_ffff_ffff_ffff == 0 && 0xfff0_0000_0000_0000u64 >> 63 == 1) by (bit_vector);
    assert((0x7ff8_0000_0000_0000u64 >> 52) & 0x7ff == 0x7ff && 0x7ff8_0000_0000_0000u64
        & 0xf_ffff_ffff_ffff != 0) by (bit_vector);
    assert((0u64 >> 52) & 0x7ff == 0) by (bit_vector);
}

} // verus!
