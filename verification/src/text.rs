//! Facts about UTF-8 text that the buffer and the renderers share, and the
//! contracts assumed of the standard library's conversions between bytes and
//! text.

use vstd::prelude::*;
use vstd::utf8::*;

verus! {

/// Number of bytes that `text` occupies in UTF-8.
pub open spec fn utf8_len(text: Seq<char>) -> nat {
    encode_utf8(text).len()
}

/// Encoding distributes over concatenation.
pub proof fn lemma_encode_concat(s: Seq<char>, t: Seq<char>)
    ensures
        encode_utf8(s + t) == encode_utf8(s) + encode_utf8(t),
    decreases s.len(),
{
    if s.len() > 0 {
        lemma_encode_concat(s.drop_first(), t);
        assert((s + t).drop_first() =~= s.drop_first() + t);
    }
}

/// Decoding distributes over the concatenation of well-formed byte strings.
pub proof fn lemma_decode_concat(a: Seq<u8>, b: Seq<u8>)
    requires
        valid_utf8(a),
        valid_utf8(b),
    ensures
        valid_utf8(a + b),
        decode_utf8(a + b) == decode_utf8(a) + decode_utf8(b),
{
    valid_utf8_concat(a, b);
    decode_utf8_encode_utf8(a);
    decode_utf8_encode_utf8(b);
    lemma_encode_concat(decode_utf8(a), decode_utf8(b));
    encode_utf8_decode_utf8(decode_utf8(a) + decode_utf8(b));
}

/// The encoding of a text decodes to that text, and is well formed.
pub proof fn lemma_encode_roundtrip(text: Seq<char>)
    ensures
        valid_utf8(encode_utf8(text)),
        decode_utf8(encode_utf8(text)) == text,
{
    encode_utf8_valid_utf8(text);
    encode_utf8_decode_utf8(text);
}

/// The error of `core::str::from_utf8`, carried through but never read.
#[verifier::external_type_specification]
#[verifier::external_body]
pub struct ExUtf8Error(core::str::Utf8Error);

/// The error of `String::from_utf8`, carried through but never read.
#[verifier::external_type_specification]
#[verifier::external_body]
pub struct ExFromUtf8Error(std::string::FromUtf8Error);

/// `core::str::from_utf8` accepts exactly the well-formed UTF-8 byte strings,
/// and the text it hands back occupies the very bytes it was given.
pub assume_specification<'a>[ core::str::from_utf8 ](v: &'a [u8]) -> (r: Result<
    &'a str,
    core::str::Utf8Error,
>)
    ensures
        r is Ok <==> valid_utf8(v@),
        r matches Ok(s) ==> encode_utf8(s@) == v@,
;

/// `String::from_utf8` accepts exactly the well-formed UTF-8 byte vectors, and
/// the string it hands back occupies the very bytes it was given.
pub assume_specification[ String::from_utf8 ](v: Vec<u8>) -> (r: Result<
    String,
    std::string::FromUtf8Error,
>)
    ensures
        r is Ok <==> valid_utf8(v@),
        r matches Ok(s) ==> encode_utf8(s@) == v@,
;

/// `String::into_bytes` hands back the UTF-8 encoding of the string.
pub assume_specification[ String::into_bytes ](s: String) -> (v: Vec<u8>)
    ensures
        v@ == encode_utf8(s@),
;

/// `char::encode_utf8` writes the encoding of `c` at the start of `scratch`
/// and hands back that part as text: the one character `c`. Four bytes hold
/// the encoding of any character.
#[verifier::external_body]
pub(crate) fn encode_char<'a>(c: char, scratch: &'a mut [u8; 4]) -> (s: &'a str)
    ensures
        s@ == seq![c],
{
    c.encode_utf8(scratch)
}

} // verus!
