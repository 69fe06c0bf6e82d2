//! Strings seen as bytes.
//!
//! Control sequences are searched for and measured byte by byte, while Rust hands out
//! text as `str` and `String`.  The functions here append to a `String` and say what
//! that does to its bytes.

use vstd::prelude::*;
use vstd::string::*;
use vstd::utf8::*;

verus! {

/// The bytes of a concatenation are the bytes of its parts, in order.
pub proof fn lemma_encode_concat(a: Seq<char>, b: Seq<char>)
    ensures
        encode_utf8(a + b) == encode_utf8(a) + encode_utf8(b),
    decreases a.len(),
{
    if a.len() == 0 {
        assert(a + b =~= b);
        assert(encode_utf8(a) + encode_utf8(b) =~= encode_utf8(b));
    } else {
        lemma_encode_concat(a.drop_first(), b);
        assert((a + b).drop_first() =~= a.drop_first() + b);
        assert((a + b)[0] == a[0]);
        assert(encode_utf8(a + b) =~= encode_utf8(a) + encode_utf8(b));
    }
}

/// A character below 128 is encoded as the one byte of its number.
pub proof fn lemma_encode_ascii(b: u8)
    requires
        b < 128,
    ensures
        encode_utf8(seq![b as char]) == seq![b],
{
    let chars = seq![b as char];
    assert(is_ascii_chars(chars));
    is_ascii_chars_encode_utf8(chars);
    assert(chars[0] as u8 == b);
    assert(encode_utf8(chars) =~= seq![b]);
}

/// Two strings with the same bytes hold the same characters.
pub proof fn lemma_encode_injective(a: Seq<char>, b: Seq<char>)
    requires
        encode_utf8(a) == encode_utf8(b),
    ensures
        a == b,
{
    encode_utf8_decode_utf8(a);
    encode_utf8_decode_utf8(b);
}

/// `String::push` of the standard library: the character is appended, and nothing
/// else about the string changes.
pub assume_specification[ String::push ](s: &mut String, ch: char)
    ensures
        final(s)@ == old(s)@.push(ch),
;

/// Appends one character below 128, given as its byte.
pub fn push_ascii(s: &mut String, b: u8)
    requires
        b < 128,
    ensures
        encode_utf8(final(s)@) == encode_utf8(old(s)@).push(b),
{
    s.push(b as char);
    proof {
        lemma_encode_concat(old(s)@, seq![b as char]);
        lemma_encode_ascii(b);
        assert(old(s)@.push(b as char) =~= old(s)@ + seq![b as char]);
        assert(encode_utf8(old(s)@) + seq![b] =~= encode_utf8(old(s)@).push(b));
    }
}

/// Appends one character, whatever its width.
pub fn push_char(s: &mut String, c: char)
    ensures
        encode_utf8(final(s)@) == encode_utf8(old(s)@) + encode_utf8(seq![c]),
{
    s.push(c);
    proof {
        lemma_encode_concat(old(s)@, seq![c]);
        assert(old(s)@.push(c) =~= old(s)@ + seq![c]);
    }
}

/// Appends a whole string.
pub fn push_text(s: &mut String, t: &str)
    ensures
        final(s)@ == old(s)@ + t@,
        encode_utf8(final(s)@) == encode_utf8(old(s)@) + t.spec_bytes(),
{
    s.append(t);
    proof {
        lemma_encode_concat(old(s)@, t@);
    }
}

/// The number of bytes in a string.
pub fn byte_len(s: &str) -> (n: usize)
    ensures
        n == s.spec_bytes().len(),
{
    s.as_bytes().len()
}

/// Tells whether two strings hold the same characters.
pub fn same_text(a: &str, b: &str) -> (r: bool)
    ensures
        r == (a@ == b@),
{
    let x = a.as_bytes();
    let y = b.as_bytes();
    if x.len() != y.len() {
        return false;
    }
    let mut i: usize = 0;
    while i < x.len()
        invariant
            i <= x.len(),
            x.len() == y.len(),
            x@ == encode_utf8(a@),
            y@ == encode_utf8(b@),
            forall|j: int| 0 <= j < i ==> x@[j] == y@[j],
        decreases x.len() - i,
    {
        if x[i] != y[i] {
            return false;
        }
        i = i + 1;
    }
    proof {
        assert(x@ =~= y@);
        lemma_encode_injective(a@, b@);
    }
    true
}

} // verus!
