//! What was written is read back: a control sequence that is written out and read
//! again is the same sequence.

use vstd::prelude::*;
use vstd::utf8::*;
use crate::decimal::{int_text, is_digit, lemma_nat_text_digits, lemma_nat_text_value, nat_text};
use crate::escape_code::{joined, parsed, parsed_at, EscapeCodeView, STYLE_TERMINATOR};
use crate::grammar::{
    digits_end, int_end, int_start, int_value, ints_end, ints_values, is_letter, is_separator,
    match_end, BRACKET, ESC,
};
use crate::measure::{lemma_int_text_len, lemma_parsed_fits};
use crate::text::lemma_encode_ascii;

verus! {

impl EscapeCodeView {
    /// True for a sequence that reading can give: its separator is `;` or `:`, it ends
    /// in an ASCII letter, it has a code exactly when that letter is `m`, and it has
    /// at least one integer.
    pub open spec fn well_formed(self) -> bool {
        &&& self.sep == ';' || self.sep == ':'
        &&& (self.end_char as u32) < 128
        &&& is_letter(self.end_char as u8)
        &&& (self.end_char == STYLE_TERMINATOR) == (self.code is Some)
        &&& self.integers().len() >= 1
    }
}

/// A run of digits ends where the first byte stands that is no digit.
pub proof fn lemma_digits_run(s: Seq<u8>, i: int, n: int)
    requires
        0 <= i,
        0 <= n,
        i + n <= s.len(),
        forall|k: int| i <= k < i + n ==> is_digit(#[trigger] s[k]),
        i + n == s.len() || !is_digit(s[i + n]),
    ensures
        digits_end(s, i) == i + n,
    decreases n,
{
    if n > 0 {
        assert(is_digit(s[i]));
        lemma_digits_run(s, i + 1, n - 1);
    }
}

/// Where an integer stands as it is written, with no digit after it, it is read as
/// that integer.
pub proof fn lemma_int_read(s: Seq<u8>, i: int, v: int)
    requires
        0 <= i,
        i + int_text(v).len() <= s.len(),
        s.subrange(i, i + int_text(v).len()) == int_text(v),
        i + int_text(v).len() == s.len() || !is_digit(s[i + int_text(v).len()]),
    ensures
        int_end(s, i) == Some(i + int_text(v).len()),
        int_value(s, i) == v,
{
    let t = int_text(v);
    let n = if v < 0 {
        (-v) as nat
    } else {
        v as nat
    };
    let digits = nat_text(n);
    lemma_nat_text_digits(n);
    lemma_nat_text_value(n);
    lemma_int_text_len(v);
    let d = if v < 0 {
        i + 1
    } else {
        i
    };
    assert(s[i] == t[0]) by {
        assert(s.subrange(i, i + t.len())[0] == t[0]);
    }
    assert forall|k: int| d <= k < d + digits.len() implies is_digit(#[trigger] s[k]) by {
        assert(s.subrange(i, i + t.len())[k - i] == t[k - i]);
        assert(t[k - i] == digits[k - d]);
    }
    assert(is_digit(digits[0]));
    lemma_digits_run(s, d, digits.len() as int);
    assert(int_start(s, i) == d);
    assert(s.subrange(d, d + digits.len()) =~= digits) by {
        assert forall|k: int| 0 <= k < digits.len() implies s.subrange(d, d + digits.len())[k]
            == digits[k] by {
            assert(s.subrange(i, i + t.len())[d + k - i] == t[d + k - i]);
        }
    }
}

/// Where a list of integers stands as it is written, with neither digit nor separator
/// after it, it is read as that list.
pub proof fn lemma_ints_read(s: Seq<u8>, i: int, vals: Seq<int>, sep: Seq<u8>)
    requires
        0 <= i,
        vals.len() >= 1,
        sep.len() == 1,
        is_separator(sep[0]),
        i + joined(vals, sep).len() < s.len(),
        s.subrange(i, i + joined(vals, sep).len()) == joined(vals, sep),
        !is_digit(s[i + joined(vals, sep).len()]),
        !is_separator(s[i + joined(vals, sep).len()]),
    ensures
        ints_end(s, i) == Some(i + joined(vals, sep).len()),
        ints_values(s, i) == vals,
    decreases vals.len(),
{
    let all = joined(vals, sep);
    let first = int_text(vals[0]);
    let window = s.subrange(i, i + all.len());
    lemma_int_text_len(vals[0]);
    if vals.len() == 1 {
        lemma_int_read(s, i, vals[0]);
        assert(ints_values(s, i) =~= vals);
    } else {
        let rest = vals.drop_first();
        let tail = joined(rest, sep);
        assert(all =~= first + sep + tail);
        let e = i + first.len();
        assert(s.subrange(i, e) =~= first) by {
            assert forall|k: int| 0 <= k < first.len() implies s.subrange(i, e)[k] == first[k] by {
                assert(window[k] == all[k]);
            }
        }
        assert(s[e] == sep[0]) by {
            assert(window[first.len() as int] == all[first.len() as int]);
        }
        lemma_int_read(s, i, vals[0]);
        assert(s.subrange(e + 1, e + 1 + tail.len()) =~= tail) by {
            assert forall|k: int| 0 <= k < tail.len() implies s.subrange(e + 1, e + 1 + tail.len())[k]
                == tail[k] by {
                assert(window[first.len() + 1 + k] == all[first.len() + 1 + k]);
            }
        }
        lemma_ints_read(s, e + 1, rest, sep);
        assert(ints_values(s, i) =~= seq![vals[0]] + rest);
        assert(seq![vals[0]] + rest =~= vals);
    }
}

/// A well-formed sequence that is written out, with whatever text after it, is found
/// at the start of that text and read as the same sequence.
pub proof fn lemma_written_is_read(c: EscapeCodeView, rest: Seq<u8>)
    requires
        c.well_formed(),
    ensures
        match_end(c.text() + rest, 0) == Some(c.text().len() as int),
        parsed_at(c.text() + rest, 0) is Ok,
        parsed_at(c.text() + rest, 0)->Ok_0.same_as(c),
        parsed_at(c.text() + rest, 0)->Ok_0.well_formed(),
{
    let sep = encode_utf8(seq![c.sep]);
    let letter = c.end_char as u8;
    let ints = c.integers();
    let body = joined(ints, sep);
    let s = c.text() + rest;
    lemma_encode_ascii(0x3b);
    lemma_encode_ascii(0x3a);
    lemma_encode_ascii(letter);
    assert(0x3bu8 as char == ';' && 0x3au8 as char == ':');
    assert(letter as char == c.end_char);
    assert(sep.len() == 1 && is_separator(sep[0]));
    assert(c.text() =~= seq![ESC, BRACKET] + body + seq![letter]);
    assert(s[0] == ESC && s[1] == BRACKET);
    let n = body.len() as int;
    assert(s[2 + n] == letter);
    assert(s.subrange(2, 2 + n) =~= body);
    lemma_ints_read(s, 2, ints, sep);
    let vals = ints_values(s, 2);
    assert(vals == ints);
    let r = parsed_at(s, 0)->Ok_0;
    assert(crate::grammar::all_fit(vals));
    if c.code is Some {
        assert(vals[0] == c.code->0 as int);
        assert(crate::escape_code::narrow(vals.drop_first()) =~= c.modifiers);
    } else {
        assert(crate::escape_code::narrow(vals) =~= c.modifiers);
    }
    lemma_parsed_fits(s, 0);
}

/// A text that was read as a control sequence gives, when that sequence is written
/// out and read again, the same sequence: the same code, parameters and final
/// letter.  The bytes may differ, since the separator, leading zeros and the source
/// text are not written back.
pub proof fn law_read_back(s: Seq<u8>)
    requires
        parsed(s) is Ok,
    ensures
        parsed(parsed(s)->Ok_0.text()) is Ok,
        parsed(parsed(s)->Ok_0.text())->Ok_0.same_as(parsed(s)->Ok_0),
{
    let c = parsed(s)->Ok_0;
    lemma_parsed_fits(s, 0);
    let e = match_end(s, 0)->0;
    assert((s[e - 1] as char) as u8 == s[e - 1]);
    lemma_written_is_read(c, Seq::empty());
    assert(c.text() + Seq::<u8>::empty() =~= c.text());
}

} // verus!
