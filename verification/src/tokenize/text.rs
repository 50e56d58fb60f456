//! Strings as sequences of characters, and the byte offsets of those
//! characters in the UTF-8 encoding of the string.

use vstd::prelude::*;
use vstd::utf8::*;

verus! {

/// The number of bytes that `c` takes in UTF-8.
pub open spec fn char_width(c: char) -> nat {
    if c as u32 <= 0x7F {
        1
    } else if c as u32 <= 0x7FF {
        2
    } else if c as u32 <= 0xFFFF {
        3
    } else {
        4
    }
}

/// The number of bytes that `s` takes in UTF-8.
pub open spec fn byte_len(s: Seq<char>) -> nat {
    encode_utf8(s).len()
}

/// The byte offset at which the character with index `i` starts in the
/// encoding of `text`; for `i == text.len()`, the length of the encoding.
pub open spec fn offset_of(text: Seq<char>, i: int) -> nat
    recommends
        0 <= i <= text.len(),
{
    byte_len(text.subrange(0, i))
}

/// `char::len_utf8` is the number of bytes of the character's UTF-8 encoding:
/// one up to U+007F, two up to U+07FF, three up to U+FFFF, four above.
pub assume_specification[ char::len_utf8 ](c: char) -> (n: usize)
    ensures
        n == char_width(c),
;

/// The lower-case form of an ASCII capital; any other character unchanged.
pub open spec fn ascii_lower(c: char) -> char {
    if 'A' <= c <= 'Z' {
        ((c as u32) + 32) as char
    } else {
        c
    }
}

/// `char::to_ascii_lowercase` maps `A`..=`Z` to `a`..=`z` and leaves every
/// other character as it is.
pub assume_specification[ char::to_ascii_lowercase ](c: &char) -> (l: char)
    ensures
        l == ascii_lower(*c),
;

/// `std::str::Utf8Error`, which `std::str::from_utf8` returns for bytes that
/// are no UTF-8.
#[verifier::external_type_specification]
#[verifier::external_body]
pub struct ExUtf8Error(std::str::Utf8Error);

/// `std::str::from_utf8` succeeds exactly on well-formed UTF-8, and the
/// string it then returns is the very bytes it was given.
pub assume_specification[ std::str::from_utf8 ](bytes: &[u8]) -> (r: Result<
    &str,
    std::str::Utf8Error,
>)
    ensures
        r is Ok <==> valid_utf8(bytes@),
        r matches Ok(s) ==> encode_utf8(s@) == bytes@,
;

/// `String::push` appends one character at the end of the string.
pub assume_specification[ String::push ](s: &mut String, c: char)
    ensures
        final(s)@ == old(s)@.push(c),
;

/// Encoding distributes over concatenation.
pub proof fn lemma_encode_concat(a: Seq<char>, b: Seq<char>)
    ensures
        encode_utf8(a + b) == encode_utf8(a) + encode_utf8(b),
    decreases a.len(),
{
    if a.len() > 0 {
        lemma_encode_concat(a.drop_first(), b);
        assert((a + b).drop_first() =~= a.drop_first() + b);
    }
}

/// The byte length of a concatenation is the sum of the byte lengths.
pub proof fn lemma_byte_len_concat(a: Seq<char>, b: Seq<char>)
    ensures
        byte_len(a + b) == byte_len(a) + byte_len(b),
{
    lemma_encode_concat(a, b);
}

/// The byte length of a single character is its width.
pub proof fn lemma_byte_len_single(c: char)
    ensures
        byte_len(seq![c]) == char_width(c),
{
    reveal_with_fuel(encode_utf8, 2);
}

/// One more character at the end adds its width to the byte length.
pub proof fn lemma_byte_len_push(s: Seq<char>, c: char)
    ensures
        byte_len(s.push(c)) == byte_len(s) + char_width(c),
{
    assert(s.push(c) =~= s + seq![c]);
    lemma_byte_len_concat(s, seq![c]);
    lemma_byte_len_single(c);
}

/// Each character moves the offset on by its width.
pub proof fn lemma_offset_step(text: Seq<char>, i: int)
    requires
        0 <= i < text.len(),
    ensures
        offset_of(text, i + 1) == offset_of(text, i) + char_width(text[i]),
        offset_of(text, i) < offset_of(text, i + 1),
{
    assert(text.subrange(0, i + 1) =~= text.subrange(0, i) + seq![text[i]]);
    lemma_byte_len_concat(text.subrange(0, i), seq![text[i]]);
    lemma_byte_len_single(text[i]);
}

/// Offsets grow with the index, and none lies beyond the byte length.
pub proof fn lemma_offset_monotonic(text: Seq<char>, i: int, j: int)
    requires
        0 <= i <= j <= text.len(),
    ensures
        offset_of(text, i) <= offset_of(text, j) <= byte_len(text),
        i < j ==> offset_of(text, i) < offset_of(text, j),
        offset_of(text, j) == offset_of(text, i) + byte_len(text.subrange(i, j)),
{
    assert(text.subrange(0, j) =~= text.subrange(0, i) + text.subrange(i, j));
    lemma_byte_len_concat(text.subrange(0, i), text.subrange(i, j));
    assert(text =~= text.subrange(0, j) + text.subrange(j, text.len() as int));
    lemma_byte_len_concat(text.subrange(0, j), text.subrange(j, text.len() as int));
}

/// The offset of every character, and the end of the text, is a character
/// boundary of the text's encoding.
pub proof fn lemma_offset_is_char_boundary(text: Seq<char>, i: int)
    requires
        0 <= i <= text.len(),
    ensures
        is_char_boundary(encode_utf8(text), offset_of(text, i) as int),
    decreases i,
{
    encode_utf8_valid_utf8(text);
    if i > 0 {
        let rest = text.drop_first();
        encode_utf8_first_scalar(text);
        assert(pop_first_scalar(encode_utf8(text)) =~= encode_utf8(rest));
        assert(text.subrange(0, i) =~= seq![text[0]] + rest.subrange(0, i - 1));
        lemma_byte_len_concat(seq![text[0]], rest.subrange(0, i - 1));
        lemma_byte_len_single(text[0]);
        lemma_offset_monotonic(text, i, text.len() as int);
        lemma_offset_is_char_boundary(rest, i - 1);
    }
}

/// The characters of `text`, in order.
pub fn chars_of(text: &str) -> (chars: Vec<char>)
    ensures
        chars@ == text@,
{
    let mut chars: Vec<char> = Vec::new();
    for c in it: text.chars()
        invariant
            chars@ == it.seq().take(it.index()),
    {
        chars.push(c);
    }
    chars
}

} // verus!
