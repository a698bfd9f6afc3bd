//! The `Render` protocol and its implementations.

use crate::buffer::Buffer;
use crate::decimal::{
    decimal, lemma_decimal_len, lemma_decimal_plain, lemma_pow10_values, write_i128, write_i16,
    write_i32, write_i64, write_i8, write_isize, write_u128, write_u16, write_u32, write_u64,
    write_u8, write_usize,
};
use crate::escape::{
    escape, escape_char, escape_to_buf, escaped_capacity, escaped_len, lemma_escape_len,
    lemma_escape_one, lemma_escape_plain,
};
use crate::text::{lemma_encode_roundtrip, utf8_len};
use std::borrow::Cow;
use std::num::Wrapping;
use std::path::{Path, PathBuf};
use std::rc::Rc;
use std::sync::Arc;
use vstd::prelude::*;
use vstd::slice::slice_subrange;
use vstd::utf8::*;

verus! {

/// The error of a failed render.
#[derive(Debug)]
pub enum RenderError {
    /// A message from the type that failed to render.
    Msg(String),
}

/// Types that can be rendered into a buffer.
///
/// The contract is stated over `text`, the raw text form of a value. A
/// render that succeeds appends it. A type that is `infallible` never fails;
/// the primitive types of this crate are, and a wrapper is where what it
/// wraps is. What a failed `render` leaves in the buffer is open; a failed
/// `render_escaped` leaves the buffer as it was. Both operations ask for
/// room in the buffer, since growing it past the capacity ceiling is fatal.
///
/// A type that leaves `text` and `infallible` as they are declared here
/// says nothing of what it renders, and an implementation that is not
/// verified is taken at its word.
pub trait Render {
    /// The raw text form of the value.
    open spec fn text(&self) -> Seq<char> {
        arbitrary()
    }

    /// Whether rendering the value never fails. Nothing is promised unless a
    /// type says so.
    open spec fn infallible(&self) -> bool {
        false
    }

    /// Appends the raw text form to `b`, without escaping.
    fn render(&self, b: &mut Buffer) -> (r: Result<(), RenderError>)
        requires
            old(b).has_room(utf8_len(self.text())),
        ensures
            self.infallible() ==> r is Ok,
            r is Ok ==> final(b)@ == old(b)@ + self.text(),
            r is Ok ==> final(b).spec_len() == old(b).spec_len() + utf8_len(self.text()),
    ;

    /// Appends the HTML-escaped text form to `b`, or fails and leaves `b`
    /// as it was.
    ///
    /// Unless a type has a shorter way, the raw form is rendered into a
    /// buffer of its own and escaped from there, and the error of that
    /// render is handed on.
    fn render_escaped(&self, b: &mut Buffer) -> (r: Result<(), RenderError>)
        requires
            old(b).has_room(utf8_len(escape(self.text()))),
        ensures
            self.infallible() ==> r is Ok,
            r is Ok ==> final(b)@ == old(b)@ + escape(self.text()),
            r is Ok ==> final(b).spec_len() == old(b).spec_len() + utf8_len(escape(self.text())),
            r is Err ==> *final(b) == *old(b),
    {
        proof {
            lemma_escape_len(self.text());
        }
        let mut tmp = Buffer::new();
        let outcome = self.render(&mut tmp);
        escape_rendered(outcome, &tmp, b)
    }
}

/// Finishes an escaped render whose raw form went into `rendered`, a buffer
/// of its own, with the result `outcome`. Where that render succeeded, the
/// escaped form of what it left is appended to `b`; where it failed, its
/// error is handed on and `b` stays as it was.
pub fn escape_rendered(outcome: Result<(), RenderError>, rendered: &Buffer, b: &mut Buffer) -> (r:
    Result<(), RenderError>)
    requires
        outcome is Ok ==> old(b).has_room(utf8_len(escape(rendered@))),
    ensures
        outcome is Ok ==> r is Ok,
        outcome matches Err(e) ==> r == Err::<(), RenderError>(e),
        outcome is Ok ==> final(b)@ == old(b)@ + escape(rendered@),
        outcome is Ok ==> final(b).spec_len() == old(b).spec_len() + utf8_len(escape(rendered@)),
        outcome is Ok ==> final(b).spec_capacity() == escaped_capacity(
            old(b).spec_capacity(),
            old(b).spec_len(),
            rendered@,
        ),
        outcome is Err ==> *final(b) == *old(b),
{
    match outcome {
        Ok(()) => {
            escape_to_buf(rendered.as_str(), b);
            Ok(())
        },
        Err(e) => Err(e),
    }
}

/// Takes the first `count` bytes of `scratch`, which are text, over into the
/// spare capacity of `b`, which holds them.
fn append_reserved(b: &mut Buffer, scratch: &[u8; 40], count: usize)
    requires
        count <= 40,
        count <= old(b).spare_len(),
        valid_utf8(scratch@.subrange(0, count as int)),
    ensures
        final(b)@ == old(b)@ + decode_utf8(scratch@.subrange(0, count as int)),
        final(b).spec_len() == old(b).spec_len() + count,
        final(b).spec_capacity() == old(b).spec_capacity(),
{
    b.write_spare(slice_subrange(scratch.as_slice(), 0, count));
    b.advance(count);
}

impl Render for String {
    open spec fn text(&self) -> Seq<char> {
        self@
    }

    open spec fn infallible(&self) -> bool {
        true
    }

    fn render(&self, b: &mut Buffer) -> (r: Result<(), RenderError>)
        ensures
            r is Ok,
            final(b).spec_capacity() == old(b).capacity_for(utf8_len(self@)),
    {
        b.push_str(self.as_str());
        Ok(())
    }

    fn render_escaped(&self, b: &mut Buffer) -> (r: Result<(), RenderError>)
        ensures
            r is Ok,
            final(b).spec_capacity() == escaped_capacity(
                old(b).spec_capacity(),
                old(b).spec_len(),
                self@,
            ),
    {
        escape_to_buf(self.as_str(), b);
        Ok(())
    }
}

impl Render for &str {
    open spec fn text(&self) -> Seq<char> {
        self@
    }

    open spec fn infallible(&self) -> bool {
        true
    }

    fn render(&self, b: &mut Buffer) -> (r: Result<(), RenderError>)
        ensures
            r is Ok,
            final(b).spec_capacity() == old(b).capacity_for(utf8_len(self@)),
    {
        b.push_str(*self);
        Ok(())
    }

    fn render_escaped(&self, b: &mut Buffer) -> (r: Result<(), RenderError>)
        ensures
            r is Ok,
            final(b).spec_capacity() == escaped_capacity(
                old(b).spec_capacity(),
                old(b).spec_len(),
                self@,
            ),
    {
        escape_to_buf(*self, b);
        Ok(())
    }
}

impl Render for char {
    open spec fn text(&self) -> Seq<char> {
        seq![*self]
    }

    open spec fn infallible(&self) -> bool {
        true
    }

    fn render(&self, b: &mut Buffer) -> (r: Result<(), RenderError>)
        ensures
            r is Ok,
            final(b).spec_capacity() == old(b).capacity_for(utf8_len(seq![*self])),
    {
        b.push(*self);
        Ok(())
    }

    /// Appends the entity that stands for the character where it is one of
    /// the five special ones, the character itself otherwise.
    fn render_escaped(&self, b: &mut Buffer) -> (r: Result<(), RenderError>)
        ensures
            r is Ok,
            final(b)@ == old(b)@ + escape_char(*self),
            final(b).spec_capacity() == old(b).capacity_for(utf8_len(escape_char(*self))),
    {
        let c = *self;
        proof {
            lemma_escape_one(c);
            reveal_strlit("&quot;");
            reveal_strlit("&amp;");
            reveal_strlit("&lt;");
            reveal_strlit("&gt;");
            reveal_strlit("&#039;");
        }
        if c == '"' {
            assert("&quot;"@ =~= escape_char(c));
            b.push_str("&quot;");
        } else if c == '&' {
            assert("&amp;"@ =~= escape_char(c));
            b.push_str("&amp;");
        } else if c == '<' {
            assert("&lt;"@ =~= escape_char(c));
            b.push_str("&lt;");
        } else if c == '>' {
            assert("&gt;"@ =~= escape_char(c));
            b.push_str("&gt;");
        } else if c == '\'' {
            assert("&#039;"@ =~= escape_char(c));
            b.push_str("&#039;");
        } else {
            b.push(c);
        }
        Ok(())
    }
}

impl Render for bool {
    open spec fn text(&self) -> Seq<char> {
        if *self {
            seq!['t', 'r', 'u', 'e']
        } else {
            seq!['f', 'a', 'l', 's', 'e']
        }
    }

    open spec fn infallible(&self) -> bool {
        true
    }

    fn render(&self, b: &mut Buffer) -> (r: Result<(), RenderError>)
        ensures
            r is Ok,
            final(b).spec_capacity() == old(b).capacity_for(utf8_len(self.text())),
    {
        proof {
            reveal_strlit("true");
            reveal_strlit("false");
            assert("true"@ =~= true.text());
            assert("false"@ =~= false.text());
        }
        let s = if *self {
            "true"
        } else {
            "false"
        };
        b.push_str(s);
        Ok(())
    }

    /// Neither literal holds a special character: the raw form is the
    /// escaped form.
    fn render_escaped(&self, b: &mut Buffer) -> (r: Result<(), RenderError>)
        ensures
            r is Ok,
            final(b)@ == old(b)@ + self.text(),
            final(b).spec_capacity() == old(b).capacity_for(utf8_len(self.text())),
    {
        proof {
            lemma_escape_plain(self.text());
        }
        self.render(b)
    }
}

/// The longest text of a machine-word integer, signed or not: that of a
/// 64-bit or of a 32-bit integer, by the width of the word.
pub open spec fn word_max_len(signed: bool) -> nat {
    if usize::MAX > 0xffff_ffff {
        if signed {
            21
        } else {
            20
        }
    } else {
        if signed {
            11
        } else {
            10
        }
    }
}

impl Render for u8 {
    open spec fn text(&self) -> Seq<char> {
        decimal(*self as int)
    }

    open spec fn infallible(&self) -> bool {
        true
    }

    /// Reserves 3 bytes, the longest text of a `u8`, lets the formatter
    /// write, and takes over what it wrote.
    fn render(&self, b: &mut Buffer) -> (r: Result<(), RenderError>)
        ensures
            r is Ok,
            final(b).spec_capacity() == old(b).capacity_for(3),
    {
        proof {
            lemma_pow10_values();
            lemma_decimal_len(*self as int, 3);
            lemma_encode_roundtrip(self.text());
        }
        b.reserve(3);
        let mut scratch: [u8; 40] = [0u8; 40];
        let count: usize = write_u8(&mut scratch, *self);
        append_reserved(b, &scratch, count);
        Ok(())
    }

    /// Digits and the sign are not special: the raw form is the escaped
    /// form.
    fn render_escaped(&self, b: &mut Buffer) -> (r: Result<(), RenderError>)
        ensures
            r is Ok,
            final(b)@ == old(b)@ + self.text(),
            final(b).spec_capacity() == old(b).capacity_for(3),
    {
        proof {
            lemma_decimal_plain(*self as int);
        }
        self.render(b)
    }
}

impl Render for u16 {
    open spec fn text(&self) -> Seq<char> {
        decimal(*self as int)
    }

    open spec fn infallible(&self) -> bool {
        true
    }

    /// Reserves 5 bytes, the longest text of a `u16`, lets the formatter
    /// write, and takes over what it wrote.
    fn render(&self, b: &mut Buffer) -> (r: Result<(), RenderError>)
        ensures
            r is Ok,
            final(b).spec_capacity() == old(b).capacity_for(5),
    {
        proof {
            lemma_pow10_values();
            lemma_decimal_len(*self as int, 5);
            lemma_encode_roundtrip(self.text());
        }
        b.reserve(5);
        let mut scratch: [u8; 40] = [0u8; 40];
        let count: usize = write_u16(&mut scratch, *self);
        append_reserved(b, &scratch, count);
        Ok(())
    }

    /// Digits and the sign are not special: the raw form is the escaped
    /// form.
    fn render_escaped(&self, b: &mut Buffer) -> (r: Result<(), RenderError>)
        ensures
            r is Ok,
            final(b)@ == old(b)@ + self.text(),
            final(b).spec_capacity() == old(b).capacity_for(5),
    {
        proof {
            lemma_decimal_plain(*self as int);
        }
        self.render(b)
    }
}

impl Render for u32 {
    open spec fn text(&self) -> Seq<char> {
        decimal(*self as int)
    }

    open spec fn infallible(&self) -> bool {
        true
    }

    /// Reserves 10 bytes, the longest text of a `u32`, lets the formatter
    /// write, and takes over what it wrote.
    fn render(&self, b: &mut Buffer) -> (r: Result<(), RenderError>)
        ensures
            r is Ok,
            final(b).spec_capacity() == old(b).capacity_for(10),
    {
        proof {
            lemma_pow10_values();
            lemma_decimal_len(*self as int, 10);
            lemma_encode_roundtrip(self.text());
        }
        b.reserve(10);
        let mut scratch: [u8; 40] = [0u8; 40];
        let count: usize = write_u32(&mut scratch, *self);
        append_reserved(b, &scratch, count);
        Ok(())
    }

    /// Digits and the sign are not special: the raw form is the escaped
    /// form.
    fn render_escaped(&self, b: &mut Buffer) -> (r: Result<(), RenderError>)
        ensures
            r is Ok,
            final(b)@ == old(b)@ + self.text(),
            final(b).spec_capacity() == old(b).capacity_for(10),
    {
        proof {
            lemma_decimal_plain(*self as int);
        }
        self.render(b)
    }
}

impl Render for u64 {
    open spec fn text(&self) -> Seq<char> {
        decimal(*self as int)
    }

    open spec fn infallible(&self) -> bool {
        true
    }

    /// Reserves 20 bytes, the longest text of a `u64`, lets the formatter
    /// write, and takes over what it wrote.
    fn render(&self, b: &mut Buffer) -> (r: Result<(), RenderError>)
        ensures
            r is Ok,
            final(b).spec_capacity() == old(b).capacity_for(20),
    {
        proof {
            lemma_pow10_values();
            lemma_decimal_len(*self as int, 20);
            lemma_encode_roundtrip(self.text());
        }
        b.reserve(20);
        let mut scratch: [u8; 40] = [0u8; 40];
        let count: usize = write_u64(&mut scratch, *self);
        append_reserved(b, &scratch, count);
        Ok(())
    }

    /// Digits and the sign are not special: the raw form is the escaped
    /// form.
    fn render_escaped(&self, b: &mut Buffer) -> (r: Result<(), RenderError>)
        ensures
            r is Ok,
            final(b)@ == old(b)@ + self.text(),
            final(b).spec_capacity() == old(b).capacity_for(20),
    {
        proof {
            lemma_decimal_plain(*self as int);
        }
        self.render(b)
    }
}

impl Render for u128 {
    open spec fn text(&self) -> Seq<char> {
        decimal(*self as int)
    }

    open spec fn infallible(&self) -> bool {
        true
    }

    /// Reserves 39 bytes, the longest text of a `u128`, lets the formatter
    /// write, and takes over what it wrote.
    fn render(&self, b: &mut Buffer) -> (r: Result<(), RenderError>)
        ensures
            r is Ok,
            final(b).spec_capacity() == old(b).capacity_for(39),
    {
        proof {
            lemma_pow10_values();
            lemma_decimal_len(*self as int, 39);
            lemma_encode_roundtrip(self.text());
        }
        b.reserve(39);
        let mut scratch: [u8; 40] = [0u8; 40];
        let count: usize = write_u128(&mut scratch, *self);
        append_reserved(b, &scratch, count);
        Ok(())
    }

    /// Digits and the sign are not special: the raw form is the escaped
    /// form.
    fn render_escaped(&self, b: &mut Buffer) -> (r: Result<(), RenderError>)
        ensures
            r is Ok,
            final(b)@ == old(b)@ + self.text(),
            final(b).spec_capacity() == old(b).capacity_for(39),
    {
        proof {
            lemma_decimal_plain(*self as int);
        }
        self.render(b)
    }
}

impl Render for i8 {
    open spec fn text(&self) -> Seq<char> {
        decimal(*self as int)
    }

    open spec fn infallible(&self) -> bool {
        true
    }

    /// Reserves 4 bytes, the longest text of an `i8`, lets the formatter
    /// write, and takes over what it wrote.
    fn render(&self, b: &mut Buffer) -> (r: Result<(), RenderError>)
        ensures
            r is Ok,
            final(b).spec_capacity() == old(b).capacity_for(4),
    {
        proof {
            lemma_pow10_values();
            lemma_decimal_len(*self as int, 3);
            lemma_encode_roundtrip(self.text());
        }
        b.reserve(4);
        let mut scratch: [u8; 40] = [0u8; 40];
        let count: usize = write_i8(&mut scratch, *self);
        append_reserved(b, &scratch, count);
        Ok(())
    }

    /// Digits and the sign are not special: the raw form is the escaped
    /// form.
    fn render_escaped(&self, b: &mut Buffer) -> (r: Result<(), RenderError>)
        ensures
            r is Ok,
            final(b)@ == old(b)@ + self.text(),
            final(b).spec_capacity() == old(b).capacity_for(4),
    {
        proof {
            lemma_decimal_plain(*self as int);
        }
        self.render(b)
    }
}

impl Render for i16 {
    open spec fn text(&self) -> Seq<char> {
        decimal(*self as int)
    }

    open spec fn infallible(&self) -> bool {
        true
    }

    /// Reserves 6 bytes, the longest text of an `i16`, lets the formatter
    /// write, and takes over what it wrote.
    fn render(&self, b: &mut Buffer) -> (r: Result<(), RenderError>)
        ensures
            r is Ok,
            final(b).spec_capacity() == old(b).capacity_for(6),
    {
        proof {
            lemma_pow10_values();
            lemma_decimal_len(*self as int, 5);
            lemma_encode_roundtrip(self.text());
        }
        b.reserve(6);
        let mut scratch: [u8; 40] = [0u8; 40];
        let count: usize = write_i16(&mut scratch, *self);
        append_reserved(b, &scratch, count);
        Ok(())
    }

    /// Digits and the sign are not special: the raw form is the escaped
    /// form.
    fn render_escaped(&self, b: &mut Buffer) -> (r: Result<(), RenderError>)
        ensures
            r is Ok,
            final(b)@ == old(b)@ + self.text(),
            final(b).spec_capacity() == old(b).capacity_for(6),
    {
        proof {
            lemma_decimal_plain(*self as int);
        }
        self.render(b)
    }
}

impl Render for i32 {
    open spec fn text(&self) -> Seq<char> {
        decimal(*self as int)
    }

    open spec fn infallible(&self) -> bool {
        true
    }

    /// Reserves 11 bytes, the longest text of an `i32`, lets the formatter
    /// write, and takes over what it wrote.
    fn render(&self, b: &mut Buffer) -> (r: Result<(), RenderError>)
        ensures
            r is Ok,
            final(b).spec_capacity() == old(b).capacity_for(11),
    {
        proof {
            lemma_pow10_values();
            lemma_decimal_len(*self as int, 10);
            lemma_encode_roundtrip(self.text());
        }
        b.reserve(11);
        let mut scratch: [u8; 40] = [0u8; 40];
        let count: usize = write_i32(&mut scratch, *self);
        append_reserved(b, &scratch, count);
        Ok(())
    }

    /// Digits and the sign are not special: the raw form is the escaped
    /// form.
    fn render_escaped(&self, b: &mut Buffer) -> (r: Result<(), RenderError>)
        ensures
            r is Ok,
            final(b)@ == old(b)@ + self.text(),
            final(b).spec_capacity() == old(b).capacity_for(11),
    {
        proof {
            lemma_decimal_plain(*self as int);
        }
        self.render(b)
    }
}

impl Render for i64 {
    open spec fn text(&self) -> Seq<char> {
        decimal(*self as int)
    }

    open spec fn infallible(&self) -> bool {
        true
    }

    /// Reserves 21 bytes, the longest text of an `i64`, lets the formatter
    /// write, and takes over what it wrote.
    fn render(&self, b: &mut Buffer) -> (r: Result<(), RenderError>)
        ensures
            r is Ok,
            final(b).spec_capacity() == old(b).capacity_for(21),
    {
        proof {
            lemma_pow10_values();
            lemma_decimal_len(*self as int, 20);
            lemma_encode_roundtrip(self.text());
        }
        b.reserve(21);
        let mut scratch: [u8; 40] = [0u8; 40];
        let count: usize = write_i64(&mut scratch, *self);
        append_reserved(b, &scratch, count);
        Ok(())
    }

    /// Digits and the sign are not special: the raw form is the escaped
    /// form.
    fn render_escaped(&self, b: &mut Buffer) -> (r: Result<(), RenderError>)
        ensures
            r is Ok,
            final(b)@ == old(b)@ + self.text(),
            final(b).spec_capacity() == old(b).capacity_for(21),
    {
        proof {
            lemma_decimal_plain(*self as int);
        }
        self.render(b)
    }
}

impl Render for i128 {
    open spec fn text(&self) -> Seq<char> {
        decimal(*self as int)
    }

    open spec fn infallible(&self) -> bool {
        true
    }

    /// Reserves 40 bytes, the longest text of an `i128`, lets the formatter
    /// write, and takes over what it wrote.
    fn render(&self, b: &mut Buffer) -> (r: Result<(), RenderError>)
        ensures
            r is Ok,
            final(b).spec_capacity() == old(b).capacity_for(40),
    {
        proof {
            lemma_pow10_values();
            lemma_decimal_len(*self as int, 39);
            lemma_encode_roundtrip(self.text());
        }
        b.reserve(40);
        let mut scratch: [u8; 40] = [0u8; 40];
        let count: usize = write_i128(&mut scratch, *self);
        append_reserved(b, &scratch, count);
        Ok(())
    }

    /// Digits and the sign are not special: the raw form is the escaped
    /// form.
    fn render_escaped(&self, b: &mut Buffer) -> (r: Result<(), RenderError>)
        ensures
            r is Ok,
            final(b)@ == old(b)@ + self.text(),
            final(b).spec_capacity() == old(b).capacity_for(40),
    {
        proof {
            lemma_decimal_plain(*self as int);
        }
        self.render(b)
    }
}

impl Render for usize {
    open spec fn text(&self) -> Seq<char> {
        decimal(*self as int)
    }

    open spec fn infallible(&self) -> bool {
        true
    }

    /// Reserves the longest text of a `usize`, 20 bytes where the machine
    /// word has 64 bits and 10 where it has 32, lets the formatter write,
    /// and takes over what it wrote.
    fn render(&self, b: &mut Buffer) -> (r: Result<(), RenderError>)
        ensures
            r is Ok,
            final(b).spec_capacity() == old(b).capacity_for(word_max_len(false)),
    {
        proof {
            lemma_pow10_values();
            lemma_decimal_len(*self as int, 20);
            if usize::MAX <= 0xffff_ffff {
                lemma_decimal_len(*self as int, 10);
            }
            lemma_encode_roundtrip(self.text());
        }
        let max_len: usize = if usize::MAX > 0xffff_ffff {
            20
        } else {
            10
        };
        b.reserve(max_len);
        let mut scratch: [u8; 40] = [0u8; 40];
        let count: usize = write_usize(&mut scratch, *self);
        append_reserved(b, &scratch, count);
        Ok(())
    }

    /// Digits and the sign are not special: the raw form is the escaped
    /// form.
    fn render_escaped(&self, b: &mut Buffer) -> (r: Result<(), RenderError>)
        ensures
            r is Ok,
            final(b)@ == old(b)@ + self.text(),
            final(b).spec_capacity() == old(b).capacity_for(word_max_len(false)),
    {
        proof {
            lemma_decimal_plain(*self as int);
        }
        self.render(b)
    }
}

impl Render for isize {
    open spec fn text(&self) -> Seq<char> {
        decimal(*self as int)
    }

    open spec fn infallible(&self) -> bool {
        true
    }

    /// Reserves the longest text of an `isize`, 21 bytes where the machine
    /// word has 64 bits and 11 where it has 32, lets the formatter write,
    /// and takes over what it wrote.
    fn render(&self, b: &mut Buffer) -> (r: Result<(), RenderError>)
        ensures
            r is Ok,
            final(b).spec_capacity() == old(b).capacity_for(word_max_len(true)),
    {
        proof {
            lemma_pow10_values();
            lemma_decimal_len(*self as int, 20);
            if usize::MAX <= 0xffff_ffff {
                lemma_decimal_len(*self as int, 10);
            }
            lemma_encode_roundtrip(self.text());
        }
        let max_len: usize = if usize::MAX > 0xffff_ffff {
            21
        } else {
            11
        };
        b.reserve(max_len);
        let mut scratch: [u8; 40] = [0u8; 40];
        let count: usize = write_isize(&mut scratch, *self);
        append_reserved(b, &scratch, count);
        Ok(())
    }

    /// Digits and the sign are not special: the raw form is the escaped
    /// form.
    fn render_escaped(&self, b: &mut Buffer) -> (r: Result<(), RenderError>)
        ensures
            r is Ok,
            final(b)@ == old(b)@ + self.text(),
            final(b).spec_capacity() == old(b).capacity_for(word_max_len(true)),
    {
        proof {
            lemma_decimal_plain(*self as int);
        }
        self.render(b)
    }
}

/// A shared reference renders as what it refers to.
impl<'a, T: Render + ?Sized> Render for &'a T {
    open spec fn text(&self) -> Seq<char> {
        (**self).text()
    }

    open spec fn infallible(&self) -> bool {
        (**self).infallible()
    }

    fn render(&self, b: &mut Buffer) -> (r: Result<(), RenderError>) {
        (**self).render(b)
    }

    fn render_escaped(&self, b: &mut Buffer) -> (r: Result<(), RenderError>) {
        (**self).render_escaped(b)
    }
}

/// An exclusive reference renders as what it refers to.
impl<'a, T: Render + ?Sized> Render for &'a mut T {
    open spec fn text(&self) -> Seq<char> {
        (**self).text()
    }

    open spec fn infallible(&self) -> bool {
        (**self).infallible()
    }

    fn render(&self, b: &mut Buffer) -> (r: Result<(), RenderError>) {
        (**self).render(b)
    }

    fn render_escaped(&self, b: &mut Buffer) -> (r: Result<(), RenderError>) {
        (**self).render_escaped(b)
    }
}

/// A box renders as what it holds.
impl<T: Render + ?Sized> Render for Box<T> {
    open spec fn text(&self) -> Seq<char> {
        (**self).text()
    }

    open spec fn infallible(&self) -> bool {
        (**self).infallible()
    }

    fn render(&self, b: &mut Buffer) -> (r: Result<(), RenderError>) {
        (**self).render(b)
    }

    fn render_escaped(&self, b: &mut Buffer) -> (r: Result<(), RenderError>) {
        (**self).render_escaped(b)
    }
}

/// A reference-counted pointer renders as what it shares.
impl<T: Render + ?Sized> Render for Rc<T> {
    open spec fn text(&self) -> Seq<char> {
        (**self).text()
    }

    open spec fn infallible(&self) -> bool {
        (**self).infallible()
    }

    fn render(&self, b: &mut Buffer) -> (r: Result<(), RenderError>) {
        (**self).render(b)
    }

    fn render_escaped(&self, b: &mut Buffer) -> (r: Result<(), RenderError>) {
        (**self).render_escaped(b)
    }
}

/// An atomically reference-counted pointer renders as what it shares.
impl<T: Render + ?Sized> Render for Arc<T> {
    open spec fn text(&self) -> Seq<char> {
        (**self).text()
    }

    open spec fn infallible(&self) -> bool {
        (**self).infallible()
    }

    fn render(&self, b: &mut Buffer) -> (r: Result<(), RenderError>) {
        (**self).render(b)
    }

    fn render_escaped(&self, b: &mut Buffer) -> (r: Result<(), RenderError>) {
        (**self).render_escaped(b)
    }
}

/// A clone-on-write value renders as what it holds, borrowed or owned.
impl<'a, T: Render + Clone> Render for Cow<'a, T> {
    open spec fn text(&self) -> Seq<char> {
        match self {
            Cow::Borrowed(borrowed) => borrowed.text(),
            Cow::Owned(owned) => owned.text(),
        }
    }

    open spec fn infallible(&self) -> bool {
        match self {
            Cow::Borrowed(borrowed) => borrowed.infallible(),
            Cow::Owned(owned) => owned.infallible(),
        }
    }

    fn render(&self, b: &mut Buffer) -> (r: Result<(), RenderError>) {
        match self {
            Cow::Borrowed(borrowed) => borrowed.render(b),
            Cow::Owned(owned) => owned.render(b),
        }
    }

    fn render_escaped(&self, b: &mut Buffer) -> (r: Result<(), RenderError>) {
        match self {
            Cow::Borrowed(borrowed) => borrowed.render_escaped(b),
            Cow::Owned(owned) => owned.render_escaped(b),
        }
    }
}

/// The wrapper of wrapping arithmetic, whose one field is public.
#[verifier::external_type_specification]
#[verifier::reject_recursive_types(T)]
pub struct ExWrapping<T>(Wrapping<T>);

/// A wrapping integer renders as the integer.
impl<T: Render> Render for Wrapping<T> {
    open spec fn text(&self) -> Seq<char> {
        self.0.text()
    }

    open spec fn infallible(&self) -> bool {
        self.0.infallible()
    }

    fn render(&self, b: &mut Buffer) -> (r: Result<(), RenderError>) {
        self.0.render(b)
    }

    fn render_escaped(&self, b: &mut Buffer) -> (r: Result<(), RenderError>) {
        self.0.render_escaped(b)
    }
}

/// A borrowed filesystem path, carried through to the standard library.
#[verifier::external_type_specification]
#[verifier::external_body]
pub struct ExPath(Path);

/// An owned filesystem path, carried through to the standard library.
#[verifier::external_type_specification]
#[verifier::external_body]
pub struct ExPathBuf(PathBuf);

/// The text that `Path::to_string_lossy` gives for a path.
pub uninterp spec fn path_text(path: &Path) -> Seq<char>;

/// The text that `Path::to_string_lossy` gives for an owned path.
pub uninterp spec fn path_buf_text(path: &PathBuf) -> Seq<char>;

/// `Path::to_string_lossy` turns the path into text, with the replacement
/// character in place of what is not Unicode. The text depends on the path
/// alone.
#[verifier::external_body]
fn path_lossy(path: &Path) -> (s: String)
    ensures
        s@ == path_text(path),
{
    path.to_string_lossy().into_owned()
}

/// `PathBuf::as_path` borrows the path that the owned path holds, which has
/// the same text.
pub assume_specification[ PathBuf::as_path ](path: &PathBuf) -> (borrowed: &Path)
    ensures
        path_text(borrowed) == path_buf_text(path),
;

/// A path renders as its text, lossy where it is not Unicode.
impl Render for Path {
    open spec fn text(&self) -> Seq<char> {
        path_text(self)
    }

    open spec fn infallible(&self) -> bool {
        true
    }

    fn render(&self, b: &mut Buffer) -> (r: Result<(), RenderError>)
        ensures
            r is Ok,
            final(b).spec_capacity() == old(b).capacity_for(utf8_len(path_text(self))),
    {
        let s = path_lossy(self);
        b.push_str(s.as_str());
        Ok(())
    }

    fn render_escaped(&self, b: &mut Buffer) -> (r: Result<(), RenderError>)
        ensures
            r is Ok,
            final(b).spec_capacity() == escaped_capacity(
                old(b).spec_capacity(),
                old(b).spec_len(),
                path_text(self),
            ),
    {
        let s = path_lossy(self);
        escape_to_buf(s.as_str(), b);
        Ok(())
    }
}

/// An owned path renders as the path it holds.
impl Render for PathBuf {
    open spec fn text(&self) -> Seq<char> {
        path_buf_text(self)
    }

    open spec fn infallible(&self) -> bool {
        true
    }

    fn render(&self, b: &mut Buffer) -> (r: Result<(), RenderError>)
        ensures
            r is Ok,
            final(b).spec_capacity() == old(b).capacity_for(utf8_len(path_buf_text(self))),
    {
        self.as_path().render(b)
    }

    fn render_escaped(&self, b: &mut Buffer) -> (r: Result<(), RenderError>)
        ensures
            r is Ok,
            final(b).spec_capacity() == escaped_capacity(
                old(b).spec_capacity(),
                old(b).spec_len(),
                path_buf_text(self),
            ),
    {
        self.as_path().render_escaped(b)
    }
}

/// Renders `path` where the buffer has room for its text, which only the
/// conversion tells, and says whether it did; the buffer is left as it is
/// where it has not.
pub fn render_path(path: &Path, b: &mut Buffer) -> (done: bool)
    ensures
        done == old(b).has_room(utf8_len(path_text(path))),
        done ==> final(b)@ == old(b)@ + path_text(path),
        done ==> final(b).spec_len() == old(b).spec_len() + utf8_len(path_text(path)),
        done ==> final(b).spec_capacity() == old(b).capacity_for(utf8_len(path_text(path))),
        !done ==> *final(b) == *old(b),
{
    let s = path_lossy(path);
    if b.room_for(s.as_str().as_bytes().len()) {
        b.push_str(s.as_str());
        true
    } else {
        false
    }
}

/// Renders `path` escaped where the buffer has room for its escaped text,
/// which only the conversion tells, and says whether it did; the buffer is
/// left as it is where it has not.
pub fn render_path_escaped(path: &Path, b: &mut Buffer) -> (done: bool)
    ensures
        done == old(b).has_room(utf8_len(escape(path_text(path)))),
        done ==> final(b)@ == old(b)@ + escape(path_text(path)),
        done ==> final(b).spec_len() == old(b).spec_len() + utf8_len(
            escape(path_text(path)),
        ),
        done ==> final(b).spec_capacity() == escaped_capacity(
            old(b).spec_capacity(),
            old(b).spec_len(),
            path_text(path),
        ),
        !done ==> *final(b) == *old(b),
{
    let s = path_lossy(path);
    match escaped_len(s.as_str()) {
        Some(size) => {
            if b.room_for(size) {
                escape_to_buf(s.as_str(), b);
                true
            } else {
                false
            }
        },
        None => false,
    }
}

} // verus!
