//! Why a modifier that was read from a text never takes up more bytes than the text
//! that it was read from.
//!
//! An integer is written in the shortest way, a move of the cursor by a negative
//! distance in the other direction and without its minus sign, and everything else as
//! it was read.

use vstd::prelude::*;
use vstd::utf8::*;
use crate::background::Background;
use crate::clear::Clear;
use crate::colour::Colour;
use crate::cursor::MoveCursor;
use crate::decimal::{
    digits_value, int_text, lemma_nat_text_digits, lemma_nat_text_shortest, nat_text, MINUS,
};
use crate::escape_code::{joined, parsed_at, EscapeCodeView, DEFAULT_SEPARATOR};
use crate::grammar::{
    digits_end, int_end, int_start, int_value, ints_end, ints_values, is_letter, is_separator,
    lemma_digits_end, lemma_int_end, lemma_ints_end, lemma_match_end, match_end,
};
use crate::intensity::Intensity;
use crate::modifier::{lens, Modifier};
use crate::search::{lemma_next_match, meaning, modifiers_from, next_match};
use crate::text::lemma_encode_ascii;
use crate::traits::IntoANSIEscapeCode;

verus! {

/// What is written for an integer is at least one byte.
pub proof fn lemma_int_text_len(v: int)
    ensures
        int_text(v).len() >= 1,
        v < 0 ==> int_text(v).len() == int_text(-v).len() + 1,
{
    if v < 0 {
        lemma_nat_text_digits((-v) as nat);
    } else {
        lemma_nat_text_digits(v as nat);
    }
}

/// The integer at `i`, written out again, is no longer than it stands in the text.
pub proof fn lemma_int_text_fits(s: Seq<u8>, i: int)
    requires
        0 <= i <= s.len(),
        int_end(s, i) is Some,
    ensures
        int_text(int_value(s, i)).len() <= int_end(s, i)->0 - i,
{
    let d = int_start(s, i);
    let e = digits_end(s, d);
    lemma_digits_end(s, d);
    let digits = s.subrange(d, e);
    assert forall|k: int| 0 <= k < digits.len() implies crate::decimal::is_digit(
        #[trigger] digits[k],
    ) by {
        assert(digits[k] == s[d + k]);
    }
    lemma_nat_text_shortest(digits);
    let n = digits_value(digits);
    if d > i && n > 0 {
        assert(int_text(-(n as int)) =~= seq![MINUS] + nat_text(n));
    }
}

/// The list of integers at `i`, written out again with separators of one byte, is no
/// longer than it stands in the text.
pub proof fn lemma_joined_fits(s: Seq<u8>, i: int, sep: Seq<u8>)
    requires
        ints_end(s, i) is Some,
        sep.len() == 1,
    ensures
        joined(ints_values(s, i), sep).len() <= ints_end(s, i)->0 - i,
    decreases s.len() - i,
{
    lemma_ints_end(s, i);
    lemma_int_end(s, i);
    lemma_int_text_fits(s, i);
    let e = int_end(s, i)->0;
    if e < s.len() && is_separator(s[e]) {
        lemma_ints_end(s, e + 1);
        lemma_joined_fits(s, e + 1, sep);
        let rest = ints_values(s, e + 1);
        let all = seq![int_value(s, i)] + rest;
        assert(all.drop_first() =~= rest);
        assert(all[0] == int_value(s, i));
        assert(joined(all, sep) =~= int_text(all[0]) + sep + joined(rest, sep));
    }
}

/// The bytes of the default separator and of a letter below 128.
pub proof fn lemma_single_bytes(b: u8)
    requires
        b < 128,
    ensures
        encode_utf8(seq![DEFAULT_SEPARATOR]) == seq![0x3bu8],
        encode_utf8(seq![b as char]) == seq![b],
{
    lemma_encode_ascii(0x3b);
    lemma_encode_ascii(b);
    assert(0x3bu8 as char == DEFAULT_SEPARATOR);
}

/// A sequence that was read from a text holds the integers that stand there, has the
/// default separator and a letter at its end, and is no longer when written out than
/// it stands in the text.
pub proof fn lemma_parsed_fits(s: Seq<u8>, at: int)
    requires
        parsed_at(s, at) is Ok,
    ensures
        match_end(s, at) is Some,
        parsed_at(s, at)->Ok_0.integers() == ints_values(s, at + 2),
        parsed_at(s, at)->Ok_0.integers().len() >= 1,
        parsed_at(s, at)->Ok_0.sep == DEFAULT_SEPARATOR,
        parsed_at(s, at)->Ok_0.end_char == s[match_end(s, at)->0 - 1] as char,
        is_letter(s[match_end(s, at)->0 - 1]),
        parsed_at(s, at)->Ok_0.source == Some(s.subrange(at, match_end(s, at)->0)),
        parsed_at(s, at)->Ok_0.text().len() <= match_end(s, at)->0 - at,
{
    let c = parsed_at(s, at)->Ok_0;
    let e = match_end(s, at)->0;
    let vals = ints_values(s, at + 2);
    lemma_match_end(s, at);
    lemma_ints_end(s, at + 2);
    assert(c.integers() =~= vals) by {
        if c.code is Some {
            assert(vals =~= seq![vals[0]] + vals.drop_first());
        }
    }
    lemma_single_bytes(s[e - 1]);
    lemma_joined_fits(s, at + 2, seq![0x3bu8]);
}

/// A single integer is written as itself.
pub proof fn lemma_joined_one(v: int, sep: Seq<u8>)
    ensures
        joined(seq![v], sep) == int_text(v),
{
}

/// What a sequence means takes up no more bytes than the sequence, if the sequence has
/// at least one integer and the default separator.
pub proof fn lemma_decoded_fits(c: EscapeCodeView)
    requires
        Modifier::decoded(c) is Ok,
        c.integers().len() >= 1,
        c.sep == DEFAULT_SEPARATOR,
    ensures
        Modifier::decoded(c)->Ok_0@.len() <= c.text().len(),
{
    let m = Modifier::decoded(c)->Ok_0;
    let sep = encode_utf8(seq![c.sep]);
    if let Ok(x) = Intensity::decoded(c) {
        assert(x.escape_code().modifiers =~= c.modifiers);
        assert(x.escape_code().integers() =~= c.integers());
    } else if let Ok(x) = Colour::decoded(c) {
        assert(x.escape_code().modifiers =~= c.modifiers);
        assert(x.escape_code().integers() =~= c.integers());
    } else if let Ok(x) = Background::decoded(c) {
        assert(x.escape_code().modifiers =~= c.modifiers);
        assert(x.escape_code().integers() =~= c.integers());
    } else if let Ok(x) = Clear::decoded(c) {
        assert(c.modifiers.len() == 1);
        assert(x.escape_code().modifiers =~= c.modifiers);
        assert(x.escape_code().integers() =~= c.integers());
    } else if let Ok(x) = MoveCursor::decoded(c) {
        let w = x.escape_code();
        lemma_single_bytes(0x41);
        lemma_single_bytes(0x42);
        lemma_single_bytes(0x43);
        lemma_single_bytes(0x44);
        assert(0x41u8 as char == 'A' && 0x42u8 as char == 'B' && 0x43u8 as char == 'C' && 0x44u8
            as char == 'D');
        if w.end_char == c.end_char {
            assert(w.modifiers =~= c.modifiers);
            assert(w.integers() =~= c.integers());
        } else {
            let n = c.modifiers[0] as int;
            assert(c.integers() =~= seq![n]);
            assert(w.integers() =~= seq![-n]);
            lemma_joined_one(n, sep);
            lemma_joined_one(-n, sep);
            lemma_int_text_len(n);
        }
    }
}

/// What the control sequence at `at` means takes up no more bytes than the sequence.
pub proof fn lemma_meaning_fits(s: Seq<u8>, at: int)
    requires
        meaning(s, at) is Some,
    ensures
        match_end(s, at) is Some,
        meaning(s, at)->0.len() <= match_end(s, at)->0 - at,
{
    lemma_parsed_fits(s, at);
    lemma_decoded_fits(parsed_at(s, at)->Ok_0);
}

/// The modifiers found from `pos` on take up no more bytes together than the text
/// has from `pos` on.
pub proof fn lemma_modifiers_fit(s: Seq<u8>, pos: int)
    requires
        0 <= pos <= s.len(),
    ensures
        lens(modifiers_from(s, pos)) <= s.len() - pos,
    decreases s.len() - pos,
{
    if let Some((start, end)) = next_match(s, pos) {
        lemma_next_match(s, pos);
        lemma_modifiers_fit(s, end);
        if let Some(m) = meaning(s, start) {
            lemma_meaning_fits(s, start);
            let rest = modifiers_from(s, end);
            let all = seq![m] + rest;
            assert(all.drop_first() =~= rest);
            assert(all[0] == m);
        }
    }
}

} // verus!
