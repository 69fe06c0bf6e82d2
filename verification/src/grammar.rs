//! The shape of a control sequence: the escape byte, an opening bracket, one or more
//! integers separated by `;` or `:`, and one ASCII letter.
//!
//! The grammar is given as a recogniser over bytes.  From a position it either finds
//! the one sequence that starts there or none: no byte of a sequence can be read in
//! two ways.

use vstd::prelude::*;
use crate::decimal::{all_digits, digits_value, is_digit, lemma_digits_value_grows, MINUS};

verus! {

/// The escape byte, with which every control sequence begins.
pub const ESC: u8 = 0x1b;

/// The byte `[`, which follows the escape byte.
pub const BRACKET: u8 = 0x5b;

/// True for `;` and `:`.
pub open spec fn is_separator(b: u8) -> bool {
    b == 0x3b || b == 0x3a
}

/// True for `A` to `Z` and `a` to `z`.
pub open spec fn is_letter(b: u8) -> bool {
    (0x41 <= b <= 0x5a) || (0x61 <= b <= 0x7a)
}

/// The first position at or after `i` that holds no digit.
pub open spec fn digits_end(s: Seq<u8>, i: int) -> int
    decreases s.len() - i,
{
    if 0 <= i < s.len() && is_digit(s[i]) {
        digits_end(s, i + 1)
    } else {
        i
    }
}

/// Where the digits of the integer at `i` begin: after its minus sign, if it has one.
pub open spec fn int_start(s: Seq<u8>, i: int) -> int {
    if 0 <= i < s.len() && s[i] == MINUS {
        i + 1
    } else {
        i
    }
}

/// Where the integer at `i` ends: an optional minus sign and at least one digit.
pub open spec fn int_end(s: Seq<u8>, i: int) -> Option<int> {
    let d = int_start(s, i);
    let e = digits_end(s, d);
    if d < e {
        Some(e)
    } else {
        None
    }
}

/// The value of the integer at `i`.
pub open spec fn int_value(s: Seq<u8>, i: int) -> int {
    let d = int_start(s, i);
    let n = digits_value(s.subrange(d, digits_end(s, d))) as int;
    if d > i {
        -n
    } else {
        n
    }
}

/// The digits run from `i` to `digits_end(s, i)`, and no further.
pub proof fn lemma_digits_end(s: Seq<u8>, i: int)
    requires
        0 <= i <= s.len(),
    ensures
        i <= digits_end(s, i) <= s.len(),
        forall|k: int| i <= k < digits_end(s, i) ==> is_digit(#[trigger] s[k]),
        digits_end(s, i) < s.len() ==> !is_digit(s[digits_end(s, i)]),
    decreases s.len() - i,
{
    if i < s.len() && is_digit(s[i]) {
        lemma_digits_end(s, i + 1);
    }
}

/// Where the list of integers at `i` ends.  After each separator another integer has
/// to follow.
pub open spec fn ints_end(s: Seq<u8>, i: int) -> Option<int>
    decreases s.len() - i,
{
    if 0 <= i <= s.len() {
        match int_end(s, i) {
            Some(e) => {
                if e < s.len() && is_separator(s[e]) {
                    proof {
                        lemma_digits_end(s, int_start(s, i));
                    }
                    ints_end(s, e + 1)
                } else {
                    Some(e)
                }
            },
            None => None,
        }
    } else {
        None
    }
}

/// The values of the integers in the list at `i`, in the order in which they stand.
pub open spec fn ints_values(s: Seq<u8>, i: int) -> Seq<int>
    decreases s.len() - i,
{
    if 0 <= i <= s.len() {
        match int_end(s, i) {
            Some(e) => {
                if e < s.len() && is_separator(s[e]) {
                    proof {
                        lemma_digits_end(s, int_start(s, i));
                    }
                    seq![int_value(s, i)] + ints_values(s, e + 1)
                } else {
                    seq![int_value(s, i)]
                }
            },
            None => Seq::empty(),
        }
    } else {
        Seq::empty()
    }
}

/// Where the control sequence that starts at `i` ends, if one starts there.
pub open spec fn match_end(s: Seq<u8>, i: int) -> Option<int> {
    if 0 <= i && i + 2 <= s.len() && s[i] == ESC && s[i + 1] == BRACKET {
        match ints_end(s, i + 2) {
            Some(e) => {
                if e < s.len() && is_letter(s[e]) {
                    Some(e + 1)
                } else {
                    None
                }
            },
            None => None,
        }
    } else {
        None
    }
}

/// True when `v` can be held in 32 bits with a sign.
pub open spec fn fits_i32(v: int) -> bool {
    i32::MIN <= v <= i32::MAX
}

/// True when each of `vals` can be held in 32 bits with a sign.
pub open spec fn all_fit(vals: Seq<int>) -> bool {
    forall|k: int| 0 <= k < vals.len() ==> fits_i32(#[trigger] vals[k])
}

/// The integers of `v`, without their width.
pub open spec fn widen(v: Seq<i32>) -> Seq<int> {
    Seq::new(v.len(), |k: int| v[k] as int)
}

/// An integer ends after where it starts, inside the text.
pub proof fn lemma_int_end(s: Seq<u8>, i: int)
    requires
        0 <= i <= s.len(),
        int_end(s, i) is Some,
    ensures
        i < int_end(s, i)->0 <= s.len(),
        int_end(s, i)->0 < s.len() ==> !is_digit(s[int_end(s, i)->0]),
{
    lemma_digits_end(s, int_start(s, i));
}

/// A list of integers ends after where it starts, inside the text, and holds at
/// least one integer.
pub proof fn lemma_ints_end(s: Seq<u8>, i: int)
    requires
        ints_end(s, i) is Some,
    ensures
        0 <= i < ints_end(s, i)->0 <= s.len(),
        ints_values(s, i).len() >= 1,
        ints_end(s, i)->0 < s.len() ==> !is_digit(s[ints_end(s, i)->0]) && !is_separator(
            s[ints_end(s, i)->0],
        ),
    decreases s.len() - i,
{
    let e = int_end(s, i)->0;
    lemma_int_end(s, i);
    if e < s.len() && is_separator(s[e]) {
        lemma_ints_end(s, e + 1);
    }
}

/// A control sequence has at least four bytes and lies inside the text.
pub proof fn lemma_match_end(s: Seq<u8>, i: int)
    requires
        match_end(s, i) is Some,
    ensures
        0 <= i,
        i + 4 <= match_end(s, i)->0 <= s.len(),
        is_letter(s[match_end(s, i)->0 - 1]),
        ints_end(s, i + 2) == Some(match_end(s, i)->0 - 1),
{
    lemma_ints_end(s, i + 2);
}

/// Finds where the digits at `i` end.
pub fn scan_digits(s: &[u8], i: usize) -> (e: usize)
    requires
        i <= s.len(),
    ensures
        e == digits_end(s@, i as int),
        i <= e <= s.len(),
{
    let mut e = i;
    while e < s.len() && s[e] >= 0x30 && s[e] <= 0x39
        invariant
            i <= e <= s.len(),
            digits_end(s@, i as int) == digits_end(s@, e as int),
        decreases s.len() - e,
    {
        e = e + 1;
    }
    e
}

/// Finds where the integer at `i` ends, if one stands there.
pub fn scan_int(s: &[u8], i: usize) -> (r: Option<usize>)
    requires
        i <= s.len(),
    ensures
        match r {
            Some(e) => int_end(s@, i as int) == Some(e as int) && i < e <= s.len(),
            None => int_end(s@, i as int) is None,
        },
{
    let d = if i < s.len() && s[i] == MINUS {
        i + 1
    } else {
        i
    };
    let e = scan_digits(s, d);
    if d < e {
        Some(e)
    } else {
        None
    }
}

/// Finds where the list of integers at `i` ends, if one stands there.
pub fn scan_ints(s: &[u8], i: usize) -> (r: Option<usize>)
    requires
        i <= s.len(),
    ensures
        match r {
            Some(e) => ints_end(s@, i as int) == Some(e as int) && i < e <= s.len(),
            None => ints_end(s@, i as int) is None,
        },
{
    let mut p = i;
    loop
        invariant
            i <= p <= s.len(),
            ints_end(s@, i as int) == ints_end(s@, p as int),
        decreases s.len() - p,
    {
        match scan_int(s, p) {
            None => {
                return None;
            },
            Some(e) => {
                if e < s.len() && (s[e] == 0x3b || s[e] == 0x3a) {
                    p = e + 1;
                } else {
                    return Some(e);
                }
            },
        }
    }
}

/// Finds where the control sequence at `i` ends, if one starts there.
pub fn scan_match(s: &[u8], i: usize) -> (r: Option<usize>)
    requires
        i <= s.len(),
    ensures
        match r {
            Some(e) => match_end(s@, i as int) == Some(e as int) && i + 4 <= e <= s.len(),
            None => match_end(s@, i as int) is None,
        },
{
    if s.len() - i < 2 || s[i] != ESC || s[i + 1] != BRACKET {
        return None;
    }
    match scan_ints(s, i + 2) {
        None => None,
        Some(e) => {
            if e < s.len() && ((s[e] >= 0x41 && s[e] <= 0x5a) || (s[e] >= 0x61 && s[e] <= 0x7a)) {
                Some(e + 1)
            } else {
                None
            }
        },
    }
}

/// Reads the digits between `d` and `e` as a magnitude of at most 2^31.
pub fn read_digits(s: &[u8], d: usize, e: usize) -> (r: Option<u32>)
    requires
        d <= e <= s.len(),
        all_digits(s@.subrange(d as int, e as int)),
    ensures
        r == if digits_value(s@.subrange(d as int, e as int)) <= 0x8000_0000 {
            Some(digits_value(s@.subrange(d as int, e as int)) as u32)
        } else {
            None
        },
{
    let ghost whole = s@.subrange(d as int, e as int);
    let mut acc: u64 = 0;
    let mut k = d;
    while k < e
        invariant
            d <= k <= e <= s.len(),
            whole == s@.subrange(d as int, e as int),
            all_digits(whole),
            acc == digits_value(whole.subrange(0, k - d)),
            acc <= 0x8000_0000,
        decreases e - k,
    {
        proof {
            assert(whole[k - d] == s@[k as int]);
            assert(is_digit(whole[k - d]));
            let next = whole.subrange(0, k - d + 1);
            assert(next.drop_last() =~= whole.subrange(0, k - d));
            assert(next.last() == s@[k as int]);
            lemma_digits_value_grows(whole, k - d + 1);
        }
        let digit: u64 = (s[k] - 0x30) as u64;
        acc = acc * 10 + digit;
        if acc > 0x8000_0000 {
            return None;
        }
        k = k + 1;
    }
    proof {
        assert(whole.subrange(0, e - d) =~= whole);
    }
    Some(acc as u32)
}

/// Reads the integer at `i`, unless it does not fit in 32 bits.
pub fn read_int(s: &[u8], i: usize) -> (r: Option<i32>)
    requires
        i <= s.len(),
        int_end(s@, i as int) is Some,
    ensures
        r == if fits_i32(int_value(s@, i as int)) {
            Some(int_value(s@, i as int) as i32)
        } else {
            None
        },
{
    let negative = i < s.len() && s[i] == MINUS;
    let d = if negative {
        i + 1
    } else {
        i
    };
    let e = scan_digits(s, d);
    proof {
        lemma_digits_end(s@, d as int);
    }
    match read_digits(s, d, e) {
        None => None,
        Some(m) => {
            if negative {
                Some((-(m as i64)) as i32)
            } else if m <= 0x7fff_ffff {
                Some(m as i32)
            } else {
                None
            }
        },
    }
}

/// Reads the integers of the list at `i`, unless one of them does not fit in 32 bits.
pub fn read_ints(s: &[u8], i: usize) -> (r: Option<Vec<i32>>)
    requires
        i <= s.len(),
        ints_end(s@, i as int) is Some,
    ensures
        match r {
            Some(v) => all_fit(ints_values(s@, i as int)) && widen(v@) == ints_values(
                s@,
                i as int,
            ),
            None => !all_fit(ints_values(s@, i as int)),
        },
{
    let mut out: Vec<i32> = Vec::new();
    let mut p = i;
    loop
        invariant
            i <= p <= s.len(),
            ints_end(s@, p as int) is Some,
            ints_values(s@, i as int) == widen(out@) + ints_values(s@, p as int),
        decreases s.len() - p,
    {
        let ghost rest = ints_values(s@, p as int);
        let ghost done = widen(out@);
        let e = match scan_int(s, p) {
            Some(e) => e,
            None => {
                return None;
            },
        };
        match read_int(s, p) {
            None => {
                proof {
                    assert(rest[0] == int_value(s@, p as int));
                    assert(ints_values(s@, i as int)[done.len() as int] == rest[0]);
                }
                return None;
            },
            Some(v) => {
                out.push(v);
                proof {
                    assert(rest[0] == v as int);
                    assert(widen(out@) =~= done + seq![v as int]);
                }
            },
        }
        if e < s.len() && (s[e] == 0x3b || s[e] == 0x3a) {
            proof {
                assert(rest =~= seq![int_value(s@, p as int)] + ints_values(s@, e + 1));
                assert(ints_values(s@, i as int) =~= widen(out@) + ints_values(s@, e + 1));
            }
            p = e + 1;
        } else {
            proof {
                assert(rest =~= seq![int_value(s@, p as int)]);
                assert(ints_values(s@, i as int) =~= widen(out@));
            }
            return Some(out);
        }
    }
}


/// Between the bracket and the final letter stand digits, minus signs and separators
/// only.
pub proof fn lemma_ints_ascii(s: Seq<u8>, i: int)
    requires
        ints_end(s, i) is Some,
    ensures
        forall|k: int| i <= k < ints_end(s, i)->0 ==> #[trigger] s[k] < 128,
    decreases s.len() - i,
{
    let e = int_end(s, i)->0;
    lemma_int_end(s, i);
    lemma_digits_end(s, int_start(s, i));
    if e < s.len() && is_separator(s[e]) {
        lemma_ints_end(s, e + 1);
        lemma_ints_ascii(s, e + 1);
    }
}

/// Every byte of a control sequence is below 128.
pub proof fn lemma_match_ascii(s: Seq<u8>, i: int)
    requires
        match_end(s, i) is Some,
    ensures
        forall|k: int| i <= k < match_end(s, i)->0 ==> #[trigger] s[k] < 128,
{
    lemma_match_end(s, i);
    lemma_ints_ascii(s, i + 2);
}

} // verus!
