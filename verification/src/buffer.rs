//! The growable output buffer.

use crate::text::{encode_char, lemma_decode_concat, lemma_encode_roundtrip, utf8_len};
use vstd::pervasive::unreached;
use vstd::prelude::*;
use vstd::slice::*;
use vstd::utf8::*;

verus! {

/// Largest reservation that a renderer of this crate makes ahead of writing
/// into the spare capacity: the longest decimal form of a 128-bit integer.
pub const RESERVE_MAX: usize = 40;

/// Buffer for rendered contents.
///
/// The buffer owns one allocation. Its first `len` bytes are the live
/// content, always well-formed UTF-8; the bytes after them are spare capacity,
/// which may be written ahead of an `advance`. An empty allocation costs
/// nothing, and the allocation is released when the buffer is dropped.
pub struct Buffer {
    data: Vec<u8>,
    len: usize,
}

impl View for Buffer {
    type V = Seq<char>;

    /// The live content as text.
    open spec fn view(&self) -> Seq<char> {
        decode_utf8(self.bytes())
    }
}

impl Buffer {
    /// Every allocated byte: the live content followed by the spare capacity.
    pub closed spec fn storage(&self) -> Seq<u8> {
        self.data@
    }

    /// Number of live bytes.
    pub closed spec fn spec_len(&self) -> nat {
        self.len as nat
    }

    /// Number of allocated bytes.
    pub open spec fn spec_capacity(&self) -> nat {
        self.storage().len()
    }

    /// The live content as bytes.
    pub open spec fn bytes(&self) -> Seq<u8> {
        self.storage().subrange(0, self.spec_len() as int)
    }

    /// Number of allocated bytes after the live content.
    pub open spec fn spare_len(&self) -> int {
        self.spec_capacity() - self.spec_len()
    }

    /// The length never exceeds the capacity, and the live bytes are
    /// well-formed UTF-8.
    #[verifier::type_invariant]
    pub open spec fn wf(&self) -> bool {
        &&& self.spec_len() <= self.spec_capacity()
        &&& valid_utf8(self.bytes())
    }

    /// The capacity ceiling: half of the address space.
    pub open spec fn max_capacity() -> nat {
        (usize::MAX / 2) as nat
    }

    /// The capacity that a buffer of `capacity` bytes grows to when it has to
    /// make room for `size` more: the larger of twice its capacity and its
    /// capacity extended by `size`.
    pub open spec fn grown_capacity(capacity: nat, size: nat) -> nat {
        if capacity * 2 >= capacity + size {
            capacity * 2
        } else {
            capacity + size
        }
    }

    /// The capacity that a buffer of `capacity` bytes, `len` of them live,
    /// has after making sure of `size` spare bytes: unchanged where they are
    /// there already, grown otherwise.
    pub open spec fn capacity_after(capacity: nat, len: nat, size: nat) -> nat {
        if size <= capacity - len {
            capacity
        } else {
            Self::grown_capacity(capacity, size)
        }
    }

    /// The capacity of this buffer after making sure of `size` spare bytes.
    pub open spec fn capacity_for(&self, size: nat) -> nat {
        Self::capacity_after(self.spec_capacity(), self.spec_len(), size)
    }

    /// Whether `size` spare bytes can be had without growing past the
    /// capacity ceiling.
    pub open spec fn can_take(&self, size: nat) -> bool {
        size <= self.spare_len() || Self::grown_capacity(self.spec_capacity(), size)
            <= Self::max_capacity()
    }

    /// Whether `extra` more bytes of text can be appended, in any number of
    /// pieces and with a reservation of up to `RESERVE_MAX` bytes ahead of
    /// each, without growing past the capacity ceiling. It depends on the
    /// length alone, since growth at most doubles what is about to be live.
    pub open spec fn has_room(&self, extra: nat) -> bool {
        2 * (self.spec_len() + extra + RESERVE_MAX) <= Self::max_capacity()
    }

    /// An empty buffer that holds no allocation.
    pub fn new() -> (b: Buffer)
        ensures
            b@ == Seq::<char>::empty(),
            b.spec_len() == 0,
            b.spec_capacity() == 0,
    {
        Buffer { data: Vec::new(), len: 0 }
    }

    /// An empty buffer with `n` bytes of spare capacity.
    pub fn with_capacity(n: usize) -> (b: Buffer)
        requires
            n <= Self::max_capacity(),
        ensures
            b@ == Seq::<char>::empty(),
            b.spec_len() == 0,
            b.spec_capacity() == n,
    {
        if n == 0 {
            Self::new()
        } else {
            Buffer { data: safe_alloc(n), len: 0 }
        }
    }

    /// The live content as text.
    pub fn as_str(&self) -> (s: &str)
        ensures
            s@ == self@,
    {
        proof {
            use_type_invariant(self);
        }
        let live = slice_subrange(self.data.as_slice(), 0, self.len);
        match core::str::from_utf8(live) {
            Ok(s) => {
                proof {
                    lemma_encode_roundtrip(s@);
                }
                s
            },
            Err(_) => unreached(),
        }
    }

    /// Number of live bytes.
    pub fn len(&self) -> (n: usize)
        ensures
            n == self.spec_len(),
            n == utf8_len(self@),
            n <= self.spec_capacity(),
    {
        proof {
            use_type_invariant(self);
            decode_utf8_encode_utf8(self.bytes());
        }
        self.len
    }

    /// Number of allocated bytes.
    pub fn capacity(&self) -> (n: usize)
        ensures
            n == self.spec_capacity(),
            n >= self.spec_len(),
    {
        proof {
            use_type_invariant(self);
        }
        self.data.len()
    }

    /// Whether `size` spare bytes can be had without growing past the
    /// capacity ceiling: what `reserve` and the appending operations ask
    /// for.
    pub fn can_hold(&self, size: usize) -> (r: bool)
        ensures
            r == self.can_take(size as nat),
    {
        proof {
            use_type_invariant(self);
        }
        let capacity: usize = self.data.len();
        let ceiling: usize = usize::MAX / 2;
        size <= capacity - self.len || (capacity <= ceiling / 2 && size <= ceiling - capacity)
    }

    /// Whether there is room for `extra` more bytes of text: what the
    /// renderers ask for.
    pub fn room_for(&self, extra: usize) -> (r: bool)
        ensures
            r == self.has_room(extra as nat),
    {
        let most: usize = usize::MAX / 2 / 2 - RESERVE_MAX;
        extra <= most && self.len <= most - extra
    }

    /// Sets the length to `new_len`, which must lie within the capacity and
    /// at the end of well-formed UTF-8.
    pub fn _set_len(&mut self, new_len: usize)
        requires
            new_len <= old(self).spec_capacity(),
            valid_utf8(old(self).storage().subrange(0, new_len as int)),
        ensures
            final(self).spec_len() == new_len,
            final(self).storage() == old(self).storage(),
            final(self)@ == decode_utf8(old(self).storage().subrange(0, new_len as int)),
    {
        self.len = new_len;
    }

    /// Increases the length by `additional` bytes, taking over what was
    /// written into the spare capacity right after the live content. Those
    /// bytes must be there, and be well-formed UTF-8.
    pub fn advance(&mut self, additional: usize)
        requires
            additional <= old(self).spare_len(),
            valid_utf8(
                old(self).storage().subrange(
                    old(self).spec_len() as int,
                    old(self).spec_len() + additional,
                ),
            ),
        ensures
            final(self).spec_len() == old(self).spec_len() + additional,
            final(self).storage() == old(self).storage(),
            final(self)@ == old(self)@ + decode_utf8(
                old(self).storage().subrange(
                    old(self).spec_len() as int,
                    old(self).spec_len() + additional,
                ),
            ),
    {
        proof {
            use_type_invariant(&*self);
            let taken = self.storage().subrange(self.len as int, self.len + additional);
            lemma_decode_concat(self.bytes(), taken);
            assert(self.storage().subrange(0, self.len + additional) =~= self.bytes() + taken);
        }
        let capacity: usize = self.data.len();
        self.len = self.len + additional;
    }

    /// Whether the buffer holds no text.
    pub fn is_empty(&self) -> (r: bool)
        ensures
            r == (self.spec_len() == 0),
            r == (self@.len() == 0),
    {
        proof {
            use_type_invariant(self);
            decode_utf8_encode_utf8(self.bytes());
        }
        self.len == 0
    }

    /// Makes sure of at least `size` bytes of spare capacity. Nothing
    /// changes where they are there already; otherwise the capacity grows to
    /// `grown_capacity`.
    pub fn reserve(&mut self, size: usize)
        requires
            old(self).can_take(size as nat),
        ensures
            final(self)@ == old(self)@,
            final(self).bytes() == old(self).bytes(),
            final(self).spec_len() == old(self).spec_len(),
            final(self).spec_capacity() == old(self).capacity_for(size as nat),
            final(self).spare_len() >= size,
    {
        proof {
            use_type_invariant(&*self);
        }
        if size <= self.data.len() - self.len {
            return ;
        }
        self.reserve_internal(size);
    }

    /// Empties the buffer and keeps its capacity.
    pub fn clear(&mut self)
        ensures
            final(self)@ == Seq::<char>::empty(),
            final(self).spec_len() == 0,
            final(self).spec_capacity() == old(self).spec_capacity(),
    {
        self.len = 0;
    }

    /// Converts the buffer into a `String` that takes over its allocation.
    pub fn into_string(self) -> (s: String)
        ensures
            s@ == self@,
    {
        proof {
            use_type_invariant(&self);
        }
        let mut data = self.data;
        data.truncate(self.len);
        match String::from_utf8(data) {
            Ok(s) => {
                proof {
                    lemma_encode_roundtrip(s@);
                }
                s
            },
            Err(_) => unreached(),
        }
    }

    /// Copies `src` into the spare capacity, right after the live content.
    /// The length stays: `advance` takes the bytes over.
    pub fn write_spare(&mut self, src: &[u8])
        requires
            src@.len() <= old(self).spare_len(),
        ensures
            final(self)@ == old(self)@,
            final(self).bytes() == old(self).bytes(),
            final(self).spec_len() == old(self).spec_len(),
            final(self).spec_capacity() == old(self).spec_capacity(),
            final(self).storage().subrange(
                old(self).spec_len() as int,
                (old(self).spec_len() + src@.len()) as int,
            ) == src@,
    {
        proof {
            use_type_invariant(&*self);
        }
        let size: usize = src.len();
        let at: usize = self.len;
        let capacity: usize = self.data.len();
        let mut i: usize = 0;
        while i < size
            invariant
                i <= size,
                size == src@.len(),
                at == self.len,
                at == old(self).len,
                at + size <= capacity,
                capacity == self.data@.len(),
                capacity == old(self).data@.len(),
                forall|k: int| 0 <= k < at ==> self.data@[k] == old(self).data@[k],
                forall|k: int| 0 <= k < i ==> self.data@[at + k] == src@[k],
            decreases size - i,
        {
            let byte: u8 = src[i];
            proof {
                use_type_invariant(&*self);
                let before = self.data@;
                assert forall|y: u8| #[trigger]
                    before.update(at + i, y).subrange(0, at as int) == before.subrange(
                        0,
                        at as int,
                    ) by {
                    assert(before.update(at + i, y).subrange(0, at as int) =~= before.subrange(
                        0,
                        at as int,
                    ));
                }
            }
            self.data[at + i] = byte;
            i = i + 1;
        }
        proof {
            assert(self.bytes() =~= old(self).bytes());
        }
    }

    /// Appends `text`, growing the allocation first where the spare
    /// capacity does not hold it.
    pub fn push_str(&mut self, text: &str)
        requires
            old(self).can_take(utf8_len(text@)),
        ensures
            appended(*old(self), text@, *final(self)),
            final(self).spec_len() <= final(self).spec_capacity(),
    {
        proof {
            use_type_invariant(&*self);
            lemma_encode_roundtrip(text@);
        }
        let size: usize = text.len();
        if size > self.data.len() - self.len {
            self.reserve_internal(size);
        }
        self.write_spare(text.as_bytes());
        self.advance(size);
    }

    /// Appends one character.
    pub fn push(&mut self, c: char)
        requires
            old(self).can_take(utf8_len(seq![c])),
        ensures
            appended(*old(self), seq![c], *final(self)),
            final(self)@ == old(self)@.push(c),
            final(self).spec_len() <= final(self).spec_capacity(),
    {
        let mut scratch: [u8; 4] = [0u8; 4];
        let text = encode_char(c, &mut scratch);
        self.push_str(text);
    }

    /// Grows the allocation to `grown_capacity`, keeping the live content.
    fn reserve_internal(&mut self, size: usize)
        requires
            Self::grown_capacity(old(self).spec_capacity(), size as nat) <= Self::max_capacity(),
        ensures
            final(self)@ == old(self)@,
            final(self).bytes() == old(self).bytes(),
            final(self).spec_len() == old(self).spec_len(),
            final(self).spec_capacity() == Self::grown_capacity(
                old(self).spec_capacity(),
                size as nat,
            ),
    {
        proof {
            use_type_invariant(&*self);
        }
        let capacity: usize = self.data.len();
        let doubled: usize = capacity * 2;
        let extended: usize = capacity + size;
        let new_capacity: usize = if doubled >= extended {
            doubled
        } else {
            extended
        };
        let len: usize = self.len;
        let mut data: Vec<u8> = Vec::new();
        self.len = 0;
        core::mem::swap(&mut data, &mut self.data);
        let data = safe_realloc(data, new_capacity);
        assert(data@.subrange(0, len as int) =~= old(self).bytes());
        self.data = data;
        self.len = len;
    }
}

/// Allocates `capacity` bytes.
fn safe_alloc(capacity: usize) -> (data: Vec<u8>)
    requires
        capacity <= Buffer::max_capacity(),
    ensures
        data@.len() == capacity,
{
    vec![0u8; capacity]
}

/// Extends the allocation `data` to `new_capacity` bytes and keeps what it
/// held.
fn safe_realloc(data: Vec<u8>, new_capacity: usize) -> (grown: Vec<u8>)
    requires
        new_capacity <= Buffer::max_capacity(),
        data@.len() <= new_capacity,
    ensures
        grown@.len() == new_capacity,
        grown@.subrange(0, data@.len() as int) == data@,
{
    let mut grown = data;
    grown.resize(new_capacity, 0u8);
    grown
}

impl Clone for Buffer {
    /// A copy of the live content in an allocation of its own, of exactly
    /// the length: spare capacity is not carried over.
    fn clone(&self) -> (b: Buffer)
        ensures
            b@ == self@,
            b.bytes() == self.bytes(),
            b.spec_len() == self.spec_len(),
            b.spec_capacity() == self.spec_len(),
    {
        proof {
            use_type_invariant(self);
        }
        let live = slice_subrange(self.data.as_slice(), 0, self.len);
        let data = slice_to_vec(live);
        assert(data@.subrange(0, self.len as int) =~= self.bytes());
        Buffer { data, len: self.len }
    }
}

impl Default for Buffer {
    /// An empty buffer that holds no allocation.
    fn default() -> (b: Buffer)
        ensures
            b@ == Seq::<char>::empty(),
            b.spec_len() == 0,
            b.spec_capacity() == 0,
    {
        Buffer::new()
    }
}

impl From<String> for Buffer {
    /// Takes over the bytes of `other`, with no spare capacity.
    fn from(other: String) -> (b: Buffer)
        ensures
            b@ == other@,
            b.spec_len() == utf8_len(other@),
            b.spec_capacity() == utf8_len(other@),
    {
        proof {
            lemma_encode_roundtrip(other@);
        }
        let data = other.into_bytes();
        let len: usize = data.len();
        assert(data@.subrange(0, len as int) =~= data@);
        Buffer { data, len }
    }
}

/// What `from` gives is stated on `from` itself, over the view.
impl vstd::std_specs::convert::FromSpecImpl<String> for Buffer {
    open spec fn obeys_from_spec() -> bool {
        false
    }

    open spec fn from_spec(other: String) -> Buffer {
        arbitrary()
    }
}

impl From<&str> for Buffer {
    /// A copy of `other`, with no spare capacity.
    fn from(other: &str) -> (b: Buffer)
        ensures
            b@ == other@,
            b.spec_len() == utf8_len(other@),
            b.spec_capacity() == utf8_len(other@),
    {
        proof {
            lemma_encode_roundtrip(other@);
        }
        let data = slice_to_vec(other.as_bytes());
        let len: usize = data.len();
        assert(data@.subrange(0, len as int) =~= data@);
        Buffer { data, len }
    }
}

/// What `from` gives is stated on `from` itself, over the view.
impl vstd::std_specs::convert::FromSpecImpl<&str> for Buffer {
    open spec fn obeys_from_spec() -> bool {
        false
    }

    open spec fn from_spec(other: &str) -> Buffer {
        arbitrary()
    }
}

/// What appending `text` makes of a buffer: the text follows the content,
/// the length grows by its bytes, and the capacity grows, by the growth
/// policy, only where the spare capacity does not hold them.
pub open spec fn appended(before: Buffer, text: Seq<char>, after: Buffer) -> bool {
    &&& after@ == before@ + text
    &&& after.spec_len() == before.spec_len() + utf8_len(text)
    &&& after.spec_capacity() == before.capacity_for(utf8_len(text))
}

/// The texts one after the other.
pub open spec fn concat(texts: Seq<Seq<char>>) -> Seq<char>
    decreases texts.len(),
{
    if texts.len() == 0 {
        Seq::<char>::empty()
    } else {
        concat(texts.drop_last()) + texts.last()
    }
}

/// After any number of appends the buffer holds what it held followed by
/// the appended texts in order, and at every step the length stays within
/// the capacity. `states` are the buffer before the first append and after
/// each.
pub proof fn lemma_appends_concatenate(states: Seq<Buffer>, texts: Seq<Seq<char>>)
    requires
        states.len() == texts.len() + 1,
        states[0].spec_len() <= states[0].spec_capacity(),
        forall|i: int|
            0 <= i < texts.len() ==> appended(states[i], #[trigger] texts[i], states[i + 1]),
    ensures
        states.last()@ == states[0]@ + concat(texts),
        forall|i: int|
            0 <= i < states.len() ==> (#[trigger] states[i]).spec_len()
                <= states[i].spec_capacity(),
    decreases texts.len(),
{
    if texts.len() > 0 {
        let n = texts.len() as int;
        lemma_appends_concatenate(states.drop_last(), texts.drop_last());
        assert(states[n]@ =~= states[0]@ + (concat(texts.drop_last()) + texts.last()));
        assert forall|i: int| 0 <= i < states.len() implies (#[trigger] states[i]).spec_len()
            <= states[i].spec_capacity() by {
            if i < n {
                assert(states.drop_last()[i] == states[i]);
            }
        }
    }
}

/// An append that the spare capacity does not hold leaves the capacity at
/// the larger of twice the old one and the old one extended by the size of
/// the append, which holds the new content; what was there stays first.
pub proof fn lemma_growth(before: Buffer, text: Seq<char>, after: Buffer)
    requires
        before.spec_len() <= before.spec_capacity(),
        appended(before, text, after),
        utf8_len(text) > before.spare_len(),
    ensures
        after.spec_capacity() >= before.spec_capacity() * 2,
        after.spec_capacity() >= before.spec_capacity() + utf8_len(text),
        after.spec_capacity() == before.spec_capacity() * 2 || after.spec_capacity()
            == before.spec_capacity() + utf8_len(text),
        after.spec_len() <= after.spec_capacity(),
        after@.subrange(0, before@.len() as int) == before@,
{
}

/// A buffer turned into a string, that string turned into a buffer, and that
/// buffer turned into a string again: all four hold the same text.
pub proof fn lemma_string_round_trip(b: Buffer, s: String, again: Buffer, t: String)
    requires
        call_ensures(Buffer::into_string, (b,), s),
        call_ensures(<Buffer as From<String>>::from, (s,), again),
        call_ensures(Buffer::into_string, (again,), t),
    ensures
        s@ == b@,
        again@ == b@,
        t@ == b@,
{
}

impl core::ops::Add<&str> for Buffer {
    type Output = Buffer;

    /// Appends `other`.
    fn add(self, other: &str) -> (b: Buffer)
        ensures
            appended(self, other@, b),
    {
        let mut b = self;
        b.push_str(other);
        b
    }
}

/// `+` asks for what `push_str` asks for; what it gives is stated on `add`
/// itself.
impl vstd::std_specs::ops::AddSpecImpl<&str> for Buffer {
    open spec fn obeys_add_spec() -> bool {
        false
    }

    open spec fn add_req(self, other: &str) -> bool {
        self.can_take(utf8_len(other@))
    }

    open spec fn add_spec(self, other: &str) -> Buffer {
        self
    }
}

impl core::ops::AddAssign<&str> for Buffer {
    /// Appends `other`.
    fn add_assign(&mut self, other: &str)
        requires
            old(self).can_take(utf8_len(other@)),
        ensures
            appended(*old(self), other@, *final(self)),
    {
        self.push_str(other);
    }
}

/// The error of `core::fmt::Write`, which writing to a buffer never gives.
#[verifier::external_type_specification]
#[verifier::external_body]
pub struct ExFmtError(core::fmt::Error);

impl core::fmt::Write for Buffer {
    /// Appends `s`; it never fails.
    fn write_str(&mut self, s: &str) -> (r: Result<(), core::fmt::Error>)
        requires
            old(self).can_take(utf8_len(s@)),
        ensures
            r is Ok,
            appended(*old(self), s@, *final(self)),
    {
        self.push_str(s);
        Ok(())
    }
}

/// The formatter of `core::fmt`, handed through to the standard library.
#[verifier::external_type_specification]
#[verifier::external_body]
pub struct ExFormatter<'a>(core::fmt::Formatter<'a>);

/// `<str as Debug>::fmt` writes `s` to the formatter, quoted.
#[verifier::external_body]
fn debug_text(s: &str, f: &mut core::fmt::Formatter<'_>) -> Result<(), core::fmt::Error> {
    core::fmt::Debug::fmt(s, f)
}

impl core::fmt::Debug for Buffer {
    /// Formats the buffer as its text.
    fn fmt(&self, f: &mut core::fmt::Formatter<'_>) -> Result<(), core::fmt::Error> {
        debug_text(self.as_str(), f)
    }
}

} // verus!
