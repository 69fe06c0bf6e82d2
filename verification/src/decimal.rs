//! Integers written in decimal, as they stand inside a control sequence.

use vstd::prelude::*;
use vstd::utf8::*;
use crate::text::push_ascii;

verus! {

/// The byte `-`.
pub const MINUS: u8 = 0x2d;

/// True for the bytes `0` to `9`.
pub open spec fn is_digit(b: u8) -> bool {
    0x30 <= b <= 0x39
}

/// True when every byte of `s` is a digit.
pub open spec fn all_digits(s: Seq<u8>) -> bool {
    forall|i: int| 0 <= i < s.len() ==> is_digit(#[trigger] s[i])
}

/// The byte that shows the digit `d`.
pub open spec fn digit_byte(d: int) -> u8 {
    (0x30 + d) as u8
}

/// The number that a string of digits denotes, most significant digit first.
/// Leading zeros count for nothing; the empty string denotes zero.
pub open spec fn digits_value(s: Seq<u8>) -> nat
    decreases s.len(),
{
    if s.len() == 0 {
        0
    } else {
        digits_value(s.drop_last()) * 10 + (s.last() - 0x30) as nat
    }
}

/// The shortest string of digits that denotes `n`.
pub open spec fn nat_text(n: nat) -> Seq<u8>
    decreases n,
{
    if n < 10 {
        seq![digit_byte(n as int)]
    } else {
        nat_text(n / 10).push(digit_byte((n % 10) as int))
    }
}

/// An integer as it is written out: a minus sign for a negative one, then the
/// shortest string of digits for its magnitude.
pub open spec fn int_text(v: int) -> Seq<u8> {
    if v < 0 {
        seq![MINUS] + nat_text((-v) as nat)
    } else {
        nat_text(v as nat)
    }
}

/// What is written for a number consists of digits, at least one.
pub proof fn lemma_nat_text_digits(n: nat)
    ensures
        nat_text(n).len() >= 1,
        all_digits(nat_text(n)),
    decreases n,
{
    if n >= 10 {
        lemma_nat_text_digits(n / 10);
    }
}

/// Reading back what was written for a number gives the number.
pub proof fn lemma_nat_text_value(n: nat)
    ensures
        digits_value(nat_text(n)) == n,
    decreases n,
{
    let t = nat_text(n);
    if n < 10 {
        assert(t.drop_last() =~= Seq::<u8>::empty());
        assert(digits_value(t.drop_last()) == 0);
        assert(t.last() == digit_byte(n as int));
    } else {
        lemma_nat_text_value(n / 10);
        assert(t.drop_last() =~= nat_text(n / 10));
        assert(t.last() == digit_byte((n % 10) as int));
    }
}

/// No string of digits for a number is shorter than the one that is written for it.
pub proof fn lemma_nat_text_shortest(s: Seq<u8>)
    requires
        s.len() >= 1,
        all_digits(s),
    ensures
        nat_text(digits_value(s)).len() <= s.len(),
    decreases s.len(),
{
    let n = digits_value(s);
    let head = s.drop_last();
    if n >= 10 {
        assert(is_digit(s[s.len() - 1]));
        if head.len() == 0 {
            assert(digits_value(head) == 0);
        } else {
            assert forall|i: int| 0 <= i < head.len() implies is_digit(#[trigger] head[i]) by {
                assert(head[i] == s[i]);
            }
            lemma_nat_text_shortest(head);
            assert(n / 10 == digits_value(head));
        }
    }
}

/// A digit more never makes the number smaller.
pub proof fn lemma_digits_value_grows(s: Seq<u8>, k: int)
    requires
        all_digits(s),
        0 <= k <= s.len(),
    ensures
        digits_value(s.subrange(0, k)) <= digits_value(s),
    decreases s.len() - k,
{
    if k < s.len() {
        lemma_digits_value_grows(s, k + 1);
        let t = s.subrange(0, k + 1);
        assert(t.drop_last() =~= s.subrange(0, k));
        assert(is_digit(t[k]));
    } else {
        assert(s.subrange(0, k) =~= s);
    }
}

/// Appends the digits of `n`.
pub fn push_nat(s: &mut String, n: u32)
    ensures
        encode_utf8(final(s)@) == encode_utf8(old(s)@) + nat_text(n as nat),
    decreases n,
{
    if n >= 10 {
        push_nat(s, n / 10);
    }
    let ghost mid = encode_utf8(s@);
    let d: u8 = (n % 10) as u8;
    push_ascii(s, 0x30 + d);
    proof {
        if n >= 10 {
            assert(mid.push(digit_byte((n % 10) as int)) =~= encode_utf8(old(s)@) + nat_text(
                n as nat,
            ));
        } else {
            assert(mid.push(digit_byte(n as int)) =~= encode_utf8(old(s)@) + nat_text(n as nat));
        }
    }
}

/// Appends an integer as [`int_text`] writes it.
pub fn push_int(s: &mut String, v: i32)
    ensures
        encode_utf8(final(s)@) == encode_utf8(old(s)@) + int_text(v as int),
{
    if v < 0 {
        push_ascii(s, MINUS);
        let magnitude: u32 = (-(v as i64)) as u32;
        push_nat(s, magnitude);
        proof {
            assert(encode_utf8(old(s)@).push(MINUS) + nat_text(magnitude as nat) =~= encode_utf8(
                old(s)@,
            ) + int_text(v as int));
        }
    } else {
        push_nat(s, v as u32);
    }
}

} // verus!
