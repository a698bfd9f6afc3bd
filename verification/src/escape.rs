//! HTML escaping of text into a buffer.

use crate::buffer::Buffer;
use crate::text::{lemma_encode_concat, utf8_len};
use vstd::prelude::*;
use vstd::utf8::*;

verus! {

/// What stands for one character in escaped text: a named entity for each of
/// the five characters that HTML gives a meaning to, the character itself
/// otherwise.
pub open spec fn escape_char(c: char) -> Seq<char> {
    if c == '"' {
        seq!['&', 'q', 'u', 'o', 't', ';']
    } else if c == '&' {
        seq!['&', 'a', 'm', 'p', ';']
    } else if c == '<' {
        seq!['&', 'l', 't', ';']
    } else if c == '>' {
        seq!['&', 'g', 't', ';']
    } else if c == '\'' {
        seq!['&', '#', '0', '3', '9', ';']
    } else {
        seq![c]
    }
}

/// The escaped form of a text: what stands for each of its characters, in
/// order.
pub open spec fn escape(text: Seq<char>) -> Seq<char>
    decreases text.len(),
{
    if text.len() == 0 {
        Seq::<char>::empty()
    } else {
        escape_char(text[0]) + escape(text.drop_first())
    }
}

/// Escaping distributes over concatenation.
pub proof fn lemma_escape_concat(s: Seq<char>, t: Seq<char>)
    ensures
        escape(s + t) == escape(s) + escape(t),
    decreases s.len(),
{
    if s.len() > 0 {
        lemma_escape_concat(s.drop_first(), t);
        assert((s + t).drop_first() =~= s.drop_first() + t);
    }
}

/// The escaped form of a single character is what stands for it.
pub proof fn lemma_escape_one(c: char)
    ensures
        escape(seq![c]) == escape_char(c),
{
    let one = seq![c];
    assert(escape(one.drop_first()) =~= Seq::<char>::empty());
}

/// Escaping a text extended by one character extends the escaped text by
/// what stands for that character.
pub proof fn lemma_escape_push(s: Seq<char>, c: char)
    ensures
        escape(s.push(c)) == escape(s) + escape_char(c),
{
    lemma_escape_concat(s, seq![c]);
    lemma_escape_one(c);
    assert(s.push(c) =~= s + seq![c]);
}

/// The escaped form of any part of a text is no longer, in bytes, than the
/// escaped form of the whole.
pub proof fn lemma_escape_take_len(text: Seq<char>, n: int)
    requires
        0 <= n <= text.len(),
    ensures
        utf8_len(escape(text.take(n))) <= utf8_len(escape(text)),
{
    assert(text =~= text.take(n) + text.skip(n));
    lemma_escape_concat(text.take(n), text.skip(n));
    lemma_encode_concat(escape(text.take(n)), escape(text.skip(n)));
}

/// Whether HTML gives `c` a meaning, so that an entity stands for it.
pub open spec fn is_special(c: char) -> bool {
    c == '"' || c == '&' || c == '<' || c == '>' || c == '\''
}

/// A text without special characters is its own escaped form.
pub proof fn lemma_escape_plain(text: Seq<char>)
    requires
        forall|i: int| 0 <= i < text.len() ==> !is_special(#[trigger] text[i]),
    ensures
        escape(text) == text,
    decreases text.len(),
{
    if text.len() > 0 {
        lemma_escape_plain(text.drop_first());
    }
}

/// Escaping never shortens a text, counted in characters or in bytes.
pub proof fn lemma_escape_len(text: Seq<char>)
    ensures
        escape(text).len() >= text.len(),
        utf8_len(escape(text)) >= utf8_len(text),
    decreases text.len(),
{
    if text.len() > 0 {
        lemma_escape_len(text.drop_first());
        lemma_encode_concat(escape_char(text[0]), escape(text.drop_first()));
        lemma_encode_concat(seq![text[0]], text.drop_first());
        lemma_escape_char_len(text[0]);
    }
}

/// What stands for a character takes at least as many bytes as the
/// character.
pub proof fn lemma_escape_char_len(c: char)
    ensures
        utf8_len(escape_char(c)) >= utf8_len(seq![c]),
        utf8_len(escape_char(c)) <= 6,
{
    if is_special(c) {
        is_ascii_chars_encode_utf8(escape_char(c));
        is_ascii_chars_encode_utf8(seq![c]);
    } else {
        let one = seq![c];
        assert(encode_utf8(one.drop_first()) =~= Seq::<u8>::empty());
    }
}

/// Escaped text holds none of `"`, `<`, `>` and `'`.
pub proof fn lemma_escape_output(text: Seq<char>)
    ensures
        forall|i: int|
            0 <= i < escape(text).len() ==> {
                let c = #[trigger] escape(text)[i];
                c != '"' && c != '<' && c != '>' && c != '\''
            },
    decreases text.len(),
{
    if text.len() > 0 {
        lemma_escape_output(text.drop_first());
        let head = escape_char(text[0]);
        let tail = escape(text.drop_first());
        assert forall|i: int| 0 <= i < escape(text).len() implies {
            let c = #[trigger] escape(text)[i];
            c != '"' && c != '<' && c != '>' && c != '\''
        } by {
            if i < head.len() {
                assert(escape(text)[i] == head[i]);
            } else {
                assert(escape(text)[i] == tail[i - head.len()]);
            }
        }
    }
}

/// What stands for a character tells the character, whatever follows: two
/// escaped texts that agree begin with the same character and go on alike.
pub proof fn lemma_escape_char_injective(c: char, rest_c: Seq<char>, d: char, rest_d: Seq<char>)
    requires
        escape_char(c) + rest_c == escape_char(d) + rest_d,
    ensures
        c == d,
        rest_c == rest_d,
{
    let left = escape_char(c) + rest_c;
    let right = escape_char(d) + rest_d;
    assert(left[0] == escape_char(c)[0]);
    assert(right[0] == escape_char(d)[0]);
    if is_special(c) && is_special(d) {
        assert(left[1] == escape_char(c)[1]);
        assert(right[1] == escape_char(d)[1]);
    }
    assert(rest_c =~= left.subrange(escape_char(c).len() as int, left.len() as int));
    assert(rest_d =~= right.subrange(escape_char(d).len() as int, right.len() as int));
}

/// Escaping loses nothing: texts with the same escaped form are the same.
pub proof fn lemma_escape_injective(s: Seq<char>, t: Seq<char>)
    requires
        escape(s) == escape(t),
    ensures
        s == t,
    decreases s.len(),
{
    lemma_escape_len(s);
    lemma_escape_len(t);
    if s.len() > 0 {
        lemma_escape_char_injective(s[0], escape(s.drop_first()), t[0], escape(t.drop_first()));
        lemma_escape_injective(s.drop_first(), t.drop_first());
        assert(s =~= seq![s[0]] + s.drop_first());
        assert(t =~= seq![t[0]] + t.drop_first());
    }
}

/// Whether the entity that stands for a special character stands in `text`
/// at `at`.
pub open spec fn entity_at(text: Seq<char>, at: int) -> bool {
    exists|c: char|
        is_special(c) && 0 <= at && at + escape_char(c).len() <= text.len() && text.subrange(
            at,
            at + escape_char(c).len(),
        ) == #[trigger] escape_char(c)
}

/// Every `&` in escaped text begins an entity.
pub proof fn lemma_escape_ampersand(text: Seq<char>, at: int)
    requires
        0 <= at < escape(text).len(),
        escape(text)[at] == '&',
    ensures
        entity_at(escape(text), at),
    decreases text.len(),
{
    let head = escape_char(text[0]);
    let tail = escape(text.drop_first());
    let whole = escape(text);
    if at < head.len() {
        assert(whole[at] == head[at]);
        assert(is_special(text[0]));
        assert(at == 0);
        assert(whole.subrange(0, head.len() as int) =~= head);
    } else {
        assert(whole[at] == tail[at - head.len()]);
        lemma_escape_ampersand(text.drop_first(), at - head.len());
        let c = choose|c: char|
            is_special(c) && at - head.len() + escape_char(c).len() <= tail.len() && tail.subrange(
                at - head.len(),
                at - head.len() + escape_char(c).len(),
            ) == #[trigger] escape_char(c);
        assert(whole.subrange(at, at + escape_char(c).len()) =~= tail.subrange(
            at - head.len(),
            at - head.len() + escape_char(c).len(),
        ));
    }
}

/// Whether `text` begins with `prefix`.
pub open spec fn begins_with(text: Seq<char>, prefix: Seq<char>) -> bool {
    prefix.len() <= text.len() && text.subrange(0, prefix.len() as int) == prefix
}

/// What escaped text stands for: read from the left, each entity gives its
/// character and every other character itself.
pub open spec fn unescape(text: Seq<char>) -> Seq<char>
    decreases text.len(),
{
    if text.len() == 0 {
        Seq::<char>::empty()
    } else if begins_with(text, escape_char('"')) {
        seq!['"'] + unescape(text.skip(6))
    } else if begins_with(text, escape_char('&')) {
        seq!['&'] + unescape(text.skip(5))
    } else if begins_with(text, escape_char('<')) {
        seq!['<'] + unescape(text.skip(4))
    } else if begins_with(text, escape_char('>')) {
        seq!['>'] + unescape(text.skip(4))
    } else if begins_with(text, escape_char('\'')) {
        seq!['\''] + unescape(text.skip(6))
    } else {
        seq![text[0]] + unescape(text.drop_first())
    }
}

/// Reading escaped text back gives the text that was escaped.
pub proof fn lemma_unescape_escape(text: Seq<char>)
    ensures
        unescape(escape(text)) == text,
    decreases text.len(),
{
    if text.len() > 0 {
        let c = text[0];
        let head = escape_char(c);
        let tail = escape(text.drop_first());
        let whole = escape(text);
        lemma_unescape_escape(text.drop_first());
        assert(whole.skip(head.len() as int) =~= tail);
        assert(whole.subrange(0, head.len() as int) =~= head);
        assert(whole[0] == head[0]);
        if is_special(c) {
            assert(whole[1] == head[1]);
            assert forall|d: char| is_special(d) && d != c implies !begins_with(
                whole,
                #[trigger] escape_char(d),
            ) by {
                if begins_with(whole, escape_char(d)) {
                    assert(whole.subrange(0, escape_char(d).len() as int)[1] == escape_char(d)[1]);
                }
            }
        } else {
            assert forall|d: char| is_special(d) implies !begins_with(
                whole,
                #[trigger] escape_char(d),
            ) by {
                if begins_with(whole, escape_char(d)) {
                    assert(whole.subrange(0, escape_char(d).len() as int)[0] == escape_char(d)[0]);
                }
            }
            assert(whole.drop_first() =~= tail);
        }
        assert(text =~= seq![c] + text.drop_first());
    }
}

/// By how many bytes what stands for `c` is longer than `c`.
pub open spec fn escape_char_growth(c: char) -> nat {
    if c == '"' || c == '\'' {
        5
    } else if c == '&' {
        4
    } else if c == '<' || c == '>' {
        3
    } else {
        0
    }
}

/// By how many bytes the escaped form of `text` is longer than `text`.
pub open spec fn escape_growth(text: Seq<char>) -> nat
    decreases text.len(),
{
    if text.len() == 0 {
        0
    } else {
        escape_growth(text.drop_last()) + escape_char_growth(text.last())
    }
}

/// The escaped form of a text takes the bytes of the text and those that
/// the entities add.
pub proof fn lemma_escape_growth(text: Seq<char>)
    ensures
        utf8_len(escape(text)) == utf8_len(text) + escape_growth(text),
    decreases text.len(),
{
    if text.len() > 0 {
        let c = text.last();
        lemma_escape_growth(text.drop_last());
        assert(text =~= text.drop_last().push(c));
        lemma_escape_push(text.drop_last(), c);
        lemma_encode_concat(escape(text.drop_last()), escape_char(c));
        lemma_encode_concat(text.drop_last(), seq![c]);
        assert(text.drop_last().push(c) =~= text.drop_last() + seq![c]);
        if is_special(c) {
            is_ascii_chars_encode_utf8(escape_char(c));
            is_ascii_chars_encode_utf8(seq![c]);
        }
    }
}

/// The entities of any leading part of a text add no more bytes than those
/// of the whole.
pub proof fn lemma_escape_growth_take(text: Seq<char>, n: int)
    requires
        0 <= n <= text.len(),
    ensures
        escape_growth(text.take(n)) <= escape_growth(text),
    decreases text.len(),
{
    if n < text.len() {
        lemma_escape_growth_take(text.drop_last(), n);
        assert(text.drop_last().take(n) =~= text.take(n));
    } else {
        assert(text.take(n) =~= text);
    }
}

/// The number of bytes of the escaped form of `feed`, unless it is more than
/// a `usize` holds.
pub fn escaped_len(feed: &str) -> (size: Option<usize>)
    ensures
        size matches Some(n) ==> n == utf8_len(escape(feed@)),
        size is None <==> utf8_len(escape(feed@)) > usize::MAX,
{
    let mut total: usize = feed.as_bytes().len();
    proof {
        lemma_escape_growth(feed@);
        assert(feed@.take(0) =~= Seq::<char>::empty());
    }
    for c in it: feed.chars()
        invariant
            it.seq() == feed@,
            total == utf8_len(feed@) + escape_growth(feed@.take(it.index())),
            utf8_len(escape(feed@)) == utf8_len(feed@) + escape_growth(feed@),
    {
        let grown: usize = if c == '"' || c == '\'' {
            5
        } else if c == '&' {
            4
        } else if c == '<' || c == '>' {
            3
        } else {
            0
        };
        proof {
            let done = feed@.take(it.index());
            let next = feed@.take(it.index() + 1);
            assert(next.drop_last() =~= done);
            lemma_escape_growth_take(feed@, it.index() + 1);
        }
        if grown > usize::MAX - total {
            return None;
        }
        total = total + grown;
    }
    proof {
        assert(feed@.take(feed@.len() as int) =~= feed@);
    }
    Some(total)
}

/// The capacity that a buffer of `capacity` bytes, `len` of them live, has
/// after the escaped form of `text` was appended to it, what stands for each
/// character in one piece.
pub open spec fn escaped_capacity(capacity: nat, len: nat, text: Seq<char>) -> nat
    decreases text.len(),
{
    if text.len() == 0 {
        capacity
    } else {
        Buffer::capacity_after(
            escaped_capacity(capacity, len, text.drop_last()),
            len + utf8_len(escape(text.drop_last())),
            utf8_len(escape_char(text.last())),
        )
    }
}

/// A buffer whose spare capacity holds the escaped form of `text` keeps its
/// capacity when that form is appended.
pub proof fn lemma_escaped_capacity_fits(capacity: nat, len: nat, text: Seq<char>)
    requires
        len + utf8_len(escape(text)) <= capacity,
    ensures
        escaped_capacity(capacity, len, text) == capacity,
    decreases text.len(),
{
    if text.len() > 0 {
        let before = text.drop_last();
        assert(text =~= before.push(text.last()));
        lemma_escape_push(before, text.last());
        lemma_encode_concat(escape(before), escape_char(text.last()));
        lemma_escaped_capacity_fits(capacity, len, before);
    }
}

/// Appends the escaped form of `feed` to `buf`, character by character.
pub fn escape_to_buf(feed: &str, buf: &mut Buffer)
    requires
        old(buf).has_room(utf8_len(escape(feed@))),
    ensures
        final(buf)@ == old(buf)@ + escape(feed@),
        final(buf).spec_len() == old(buf).spec_len() + utf8_len(escape(feed@)),
        final(buf).spec_capacity() == escaped_capacity(
            old(buf).spec_capacity(),
            old(buf).spec_len(),
            feed@,
        ),
{
    proof {
        assert(feed@.take(0) =~= Seq::<char>::empty());
    }
    for c in it: feed.chars()
        invariant
            it.seq() == feed@,
            old(buf).has_room(utf8_len(escape(feed@))),
            buf@ == old(buf)@ + escape(feed@.take(it.index())),
            buf.spec_len() == old(buf).spec_len() + utf8_len(escape(feed@.take(it.index()))),
            buf.spec_capacity() == escaped_capacity(
                old(buf).spec_capacity(),
                old(buf).spec_len(),
                feed@.take(it.index()),
            ),
    {
        let ghost done = feed@.take(it.index());
        proof {
            assert(feed@.take(it.index() + 1) =~= done.push(c));
            assert(done.push(c).drop_last() =~= done);
            lemma_escape_push(done, c);
            lemma_escape_take_len(feed@, it.index() + 1);
            lemma_encode_concat(escape(done), escape_char(c));
            reveal_strlit("&quot;");
            reveal_strlit("&amp;");
            reveal_strlit("&lt;");
            reveal_strlit("&gt;");
            reveal_strlit("&#039;");
        }
        if c == '"' {
            assert("&quot;"@ =~= escape_char(c));
            buf.push_str("&quot;");
        } else if c == '&' {
            assert("&amp;"@ =~= escape_char(c));
            buf.push_str("&amp;");
        } else if c == '<' {
            assert("&lt;"@ =~= escape_char(c));
            buf.push_str("&lt;");
        } else if c == '>' {
            assert("&gt;"@ =~= escape_char(c));
            buf.push_str("&gt;");
        } else if c == '\'' {
            assert("&#039;"@ =~= escape_char(c));
            buf.push_str("&#039;");
        } else {
            buf.push(c);
        }
    }
    proof {
        assert(feed@.take(feed@.len() as int) =~= feed@);
    }
}

} // verus!
