//! A control sequence is decided by its own bytes: where the same bytes stand in
//! another text, or at another place, the same sequence is found.

use vstd::prelude::*;
use crate::decimal::{is_digit, MINUS};
use crate::escape_code::parsed_at;
use crate::grammar::{
    digits_end, int_end, int_start, int_value, ints_end, ints_values, is_separator,
    lemma_digits_end, lemma_int_end, lemma_ints_end, lemma_match_end, match_end, ESC,
};

verus! {

/// True when the `n` bytes of `a` from `i` on are the `n` bytes of `b` from `j` on.
pub open spec fn agree(a: Seq<u8>, i: int, b: Seq<u8>, j: int, n: int) -> bool {
    &&& 0 <= i
    &&& 0 <= j
    &&& 0 <= n
    &&& i + n <= a.len()
    &&& j + n <= b.len()
    &&& forall|k: int| i <= k < i + n ==> #[trigger] a[k] == b[k - i + j]
}

/// Bytes that agree on a stretch agree on what is left of it after its first byte.
pub proof fn lemma_agree_rest(a: Seq<u8>, i: int, b: Seq<u8>, j: int, n: int, d: int)
    requires
        agree(a, i, b, j, n),
        0 <= d <= n,
    ensures
        agree(a, i + d, b, j + d, n - d),
{
    assert forall|k: int| i + d <= k < i + d + (n - d) implies #[trigger] a[k] == b[k - (i + d) + (j
        + d)] by {
        assert(a[k] == b[k - i + j]);
    }
}

/// Digits that end inside a stretch of bytes end at the same place wherever the same
/// bytes stand.
pub proof fn lemma_digits_transfer(a: Seq<u8>, i: int, b: Seq<u8>, j: int, n: int)
    requires
        agree(a, i, b, j, n),
        digits_end(a, i) < i + n,
    ensures
        digits_end(b, j) - j == digits_end(a, i) - i,
    decreases n,
{
    lemma_digits_end(a, i);
    assert(a[i] == b[i - i + j]);
    if is_digit(a[i]) {
        lemma_agree_rest(a, i, b, j, n, 1);
        lemma_digits_transfer(a, i + 1, b, j + 1, n - 1);
    }
}

/// An integer that ends inside a stretch of bytes is the same integer wherever the
/// same bytes stand.
pub proof fn lemma_int_transfer(a: Seq<u8>, i: int, b: Seq<u8>, j: int, n: int)
    requires
        agree(a, i, b, j, n),
        int_end(a, i) is Some,
        int_end(a, i)->0 < i + n,
    ensures
        int_end(b, j) == Some(int_end(a, i)->0 - i + j),
        int_value(b, j) == int_value(a, i),
{
    lemma_int_end(a, i);
    assert(a[i] == b[i - i + j]);
    let d = int_start(a, i);
    let e = digits_end(a, d);
    lemma_agree_rest(a, i, b, j, n, d - i);
    lemma_digits_transfer(a, d, b, d - i + j, n - (d - i));
    let d2 = int_start(b, j);
    let e2 = digits_end(b, d2);
    assert(a.subrange(d, e) =~= b.subrange(d2, e2)) by {
        assert forall|k: int| 0 <= k < e - d implies a.subrange(d, e)[k] == b.subrange(d2, e2)[k] by {
            assert(a[d + k] == b[d + k - i + j]);
        }
    }
}

/// A list of integers that ends inside a stretch of bytes is the same list wherever
/// the same bytes stand.
pub proof fn lemma_ints_transfer(a: Seq<u8>, i: int, b: Seq<u8>, j: int, n: int)
    requires
        agree(a, i, b, j, n),
        ints_end(a, i) is Some,
        ints_end(a, i)->0 < i + n,
    ensures
        ints_end(b, j) == Some(ints_end(a, i)->0 - i + j),
        ints_values(b, j) == ints_values(a, i),
    decreases n,
{
    lemma_ints_end(a, i);
    lemma_int_end(a, i);
    let e = int_end(a, i)->0;
    if e < a.len() && is_separator(a[e]) {
        lemma_ints_end(a, e + 1);
        lemma_int_transfer(a, i, b, j, n);
        assert(a[e] == b[e - i + j]);
        lemma_agree_rest(a, i, b, j, n, e + 1 - i);
        lemma_ints_transfer(a, e + 1, b, e + 1 - i + j, n - (e + 1 - i));
    } else {
        lemma_int_transfer(a, i, b, j, n);
        assert(a[e] == b[e - i + j]);
    }
}

/// Where the bytes of a control sequence stand in another text, they are a control
/// sequence there too, and are read as the same.
pub proof fn lemma_match_transfer(a: Seq<u8>, i: int, b: Seq<u8>, j: int)
    requires
        match_end(a, i) is Some,
        agree(a, i, b, j, match_end(a, i)->0 - i),
    ensures
        match_end(b, j) == Some(match_end(a, i)->0 - i + j),
        parsed_at(b, j) == parsed_at(a, i),
{
    lemma_match_end(a, i);
    let e = match_end(a, i)->0;
    let n = e - i;
    assert(a[i] == b[i - i + j]);
    assert(a[i + 1] == b[i + 1 - i + j]);
    assert(a[e - 1] == b[e - 1 - i + j]);
    lemma_agree_rest(a, i, b, j, n, 2);
    lemma_ints_transfer(a, i + 2, b, j + 2, n - 2);
    assert(a.subrange(i, e) =~= b.subrange(j, j + n)) by {
        assert forall|k: int| 0 <= k < n implies a.subrange(i, e)[k] == b.subrange(j, j + n)[k] by {
            assert(a[i + k] == b[i + k - i + j]);
        }
    }
}

/// Between the bracket and the final letter stand digits, minus signs and separators
/// only.
pub proof fn lemma_ints_bytes(s: Seq<u8>, i: int)
    requires
        ints_end(s, i) is Some,
    ensures
        forall|k: int|
            i <= k < ints_end(s, i)->0 ==> is_digit(#[trigger] s[k]) || s[k] == MINUS
                || is_separator(s[k]),
    decreases s.len() - i,
{
    let e = int_end(s, i)->0;
    lemma_int_end(s, i);
    lemma_digits_end(s, int_start(s, i));
    if e < s.len() && is_separator(s[e]) {
        lemma_ints_end(s, e + 1);
        lemma_ints_bytes(s, e + 1);
    }
}

/// The escape byte stands at the start of a control sequence and nowhere else in it.
pub proof fn lemma_match_bytes(s: Seq<u8>, i: int)
    requires
        match_end(s, i) is Some,
    ensures
        s[i] == ESC,
        forall|k: int| i < k < match_end(s, i)->0 ==> #[trigger] s[k] != ESC,
{
    lemma_match_end(s, i);
    lemma_ints_bytes(s, i + 2);
}

/// What stands before a text does not change the control sequences in it.
pub proof fn lemma_match_shift(p: Seq<u8>, s: Seq<u8>, i: int)
    requires
        0 <= i,
    ensures
        match_end(p + s, p.len() + i) == match match_end(s, i) {
            Some(e) => Some(p.len() + e),
            None => None,
        },
        parsed_at(p + s, p.len() + i) == parsed_at(s, i),
{
    let t = p + s;
    let j = p.len() + i;
    if match_end(s, i) is Some {
        lemma_match_end(s, i);
        let n = match_end(s, i)->0 - i;
        assert forall|k: int| i <= k < i + n implies #[trigger] s[k] == t[k - i + j] by {}
        lemma_match_transfer(s, i, t, j);
    } else if match_end(t, j) is Some {
        lemma_match_end(t, j);
        let n = match_end(t, j)->0 - j;
        assert forall|k: int| j <= k < j + n implies #[trigger] t[k] == s[k - j + i] by {}
        lemma_match_transfer(t, j, s, i);
    }
}

/// What stands after a text does not change the control sequences in it, if it is
/// nothing or begins with the escape byte.
pub proof fn lemma_match_extend(s: Seq<u8>, q: Seq<u8>, i: int)
    requires
        0 <= i < s.len(),
        q.len() == 0 || q[0] == ESC,
    ensures
        match_end(s + q, i) == match_end(s, i),
        parsed_at(s + q, i) == parsed_at(s, i),
{
    let t = s + q;
    if match_end(s, i) is Some {
        lemma_match_end(s, i);
        let n = match_end(s, i)->0 - i;
        assert forall|k: int| i <= k < i + n implies #[trigger] s[k] == t[k - i + i] by {}
        lemma_match_transfer(s, i, t, i);
    } else if match_end(t, i) is Some {
        lemma_match_end(t, i);
        lemma_match_bytes(t, i);
        let e = match_end(t, i)->0;
        if e > s.len() {
            assert(t[s.len() as int] == q[0]);
        }
        assert forall|k: int| i <= k < i + (e - i) implies #[trigger] t[k] == s[k - i + i] by {}
        lemma_match_transfer(t, i, s, i);
    }
}

} // verus!
