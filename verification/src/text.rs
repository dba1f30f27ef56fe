//! Helpers on ASCII text: searching bytes and building strings.

use vstd::prelude::*;
use vstd::utf8::{encode_utf8, is_ascii_chars, is_ascii_chars_encode_utf8};

verus! {

/// The index of the first `byte` in `text` at or after `from`; the length of
/// `text` where there is none.
pub open spec fn first_at(text: Seq<u8>, byte: u8, from: int) -> int
    recommends
        0 <= from <= text.len(),
    decreases text.len() - from,
{
    if from >= text.len() {
        text.len() as int
    } else if text[from] == byte {
        from
    } else {
        first_at(text, byte, from + 1)
    }
}

/// `first_at` lies within the text, at a `byte` unless the text ends first, and
/// no `byte` lies before it.
pub proof fn lemma_first_at(text: Seq<u8>, byte: u8, from: int)
    requires
        0 <= from <= text.len(),
    ensures
        from <= first_at(text, byte, from) <= text.len(),
        first_at(text, byte, from) < text.len() ==> text[first_at(text, byte, from)] == byte,
        forall|i: int| from <= i < first_at(text, byte, from) ==> text[i] != byte,
    decreases text.len() - from,
{
    if from < text.len() && text[from] != byte {
        lemma_first_at(text, byte, from + 1);
    }
}

/// A `byte` with no `byte` between `from` and it is the first at or after `from`.
pub proof fn lemma_first_at_is(text: Seq<u8>, byte: u8, from: int, at: int)
    requires
        0 <= from <= at < text.len(),
        text[at] == byte,
        forall|i: int| from <= i < at ==> text[i] != byte,
    ensures
        first_at(text, byte, from) == at,
    decreases at - from,
{
    if from < at {
        lemma_first_at_is(text, byte, from + 1, at);
    }
}

/// The index of the first `byte` in `bytes` at or after `from`; the length of
/// `bytes` where there is none.
pub fn find_byte(bytes: &[u8], byte: u8, from: usize) -> (at: usize)
    requires
        from <= bytes@.len(),
    ensures
        at == first_at(bytes@, byte, from as int),
        from <= at <= bytes@.len(),
        at < bytes@.len() ==> bytes@[at as int] == byte,
{
    let n: usize = bytes.len();
    let mut at: usize = from;
    while at < n && bytes[at] != byte
        invariant
            from <= at <= n,
            n == bytes@.len(),
            first_at(bytes@, byte, from as int) == first_at(bytes@, byte, at as int),
        decreases n - at,
    {
        at = at + 1;
    }
    at
}

/// The characters that the ASCII bytes `bytes` stand for.
pub open spec fn ascii(bytes: Seq<u8>) -> Seq<char> {
    Seq::new(bytes.len(), |i: int| bytes[i] as char)
}

/// Whether every byte of `bytes` is ASCII.
pub open spec fn all_ascii(bytes: Seq<u8>) -> bool {
    forall|i: int| 0 <= i < bytes.len() ==> #[trigger] bytes[i] < 128
}

/// `bytes` from its last byte to its first.
pub open spec fn reversed(bytes: Seq<u8>) -> Seq<u8> {
    Seq::new(bytes.len(), |i: int| bytes[bytes.len() - 1 - i])
}

/// A text of ASCII characters is encoded by the bytes that stand for them.
pub proof fn lemma_ascii_encoding(bytes: Seq<u8>)
    requires
        all_ascii(bytes),
    ensures
        is_ascii_chars(ascii(bytes)),
        encode_utf8(ascii(bytes)) == bytes,
{
    let chars = ascii(bytes);
    assert forall|i: int| 0 <= i < chars.len() implies '\0' <= #[trigger] chars[i] <= '\u{7f}' by {
        assert(bytes[i] < 128);
    }
    is_ascii_chars_encode_utf8(chars);
    assert forall|i: int| 0 <= i < bytes.len() implies encode_utf8(chars)[i] == bytes[i] by {
        assert(chars[i] as u8 == encode_utf8(chars)[i]);
        assert(bytes[i] < 128);
        assert((bytes[i] as char) as u8 == bytes[i]);
    }
    assert(encode_utf8(chars) =~= bytes);
}

/// `String::push` appends one character to the string, as std documents it.
pub assume_specification[ String::push ](s: &mut String, ch: char)
    ensures
        final(s)@ == old(s)@.push(ch),
;

/// The text whose bytes are `bytes` from the last to the first.
pub fn string_from_reversed(bytes: &Vec<u8>) -> (s: String)
    requires
        all_ascii(bytes@),
    ensures
        s@ == ascii(reversed(bytes@)),
        encode_utf8(s@) == reversed(bytes@),
{
    let mut s = String::new();
    let n: usize = bytes.len();
    let mut i: usize = n;
    while i > 0
        invariant
            i <= n,
            n == bytes@.len(),
            s@ == ascii(reversed(bytes@).subrange(0, n - i)),
        decreases i,
    {
        i = i - 1;
        let ghost before = s@;
        s.push(bytes[i] as char);
        assert(s@ =~= ascii(reversed(bytes@).subrange(0, n - i)));
    }
    proof {
        assert(reversed(bytes@).subrange(0, n as int) =~= reversed(bytes@));
        lemma_ascii_encoding(reversed(bytes@));
    }
    s
}

} // verus!
