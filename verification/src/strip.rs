//! Taking the modifiers out of a text again.

use vstd::prelude::*;
use vstd::string::StringSliceAdditionalSpecFns;
use crate::escape_code::{parsed_at, ANSIEscapeCode, EscapeCodeView};
use crate::grammar::{lemma_match_end, match_end, scan_match, ESC};
use crate::laws::law_modifier_round_trip;
use crate::locality::{lemma_match_extend, lemma_match_shift};
use crate::modifier::{texts, Modifier, ModifierView};
use crate::roundtrip::lemma_written_is_read;
use crate::search::{meaning, modifiers_from, modifiers_in, next_match};
use crate::wrap::wrapped_all;

verus! {

/// The text from `i` on without its modifiers: every control sequence that means
/// something is left out, and every other byte stays, those of a control sequence
/// that means nothing too.
pub open spec fn stripped_from(s: Seq<u8>, i: int) -> Seq<u8>
    decreases s.len() - i,
{
    if i < 0 || i >= s.len() {
        Seq::empty()
    } else {
        match match_end(s, i) {
            Some(e) => {
                proof {
                    lemma_match_end(s, i);
                }
                if meaning(s, i) is Some {
                    stripped_from(s, e)
                } else {
                    s.subrange(i, e) + stripped_from(s, e)
                }
            },
            None => seq![s[i]] + stripped_from(s, i + 1),
        }
    }
}

/// The text without its modifiers.
pub open spec fn stripped(s: Seq<u8>) -> Seq<u8> {
    stripped_from(s, 0)
}

/// Takes the modifiers out of a text and returns the bytes that are left.
pub fn strip_modifiers(text: &str) -> (r: Vec<u8>)
    ensures
        r@ == stripped(text.spec_bytes()),
{
    let bytes = text.as_bytes();
    let ghost s = bytes@;
    let mut out: Vec<u8> = Vec::new();
    let mut i: usize = 0;
    assert(out@ + stripped_from(s, 0) =~= stripped_from(s, 0));
    while i < bytes.len()
        invariant
            i <= bytes.len(),
            s == bytes@,
            stripped_from(s, 0) == out@ + stripped_from(s, i as int),
        decreases bytes.len() - i,
    {
        let ghost before = out@;
        match scan_match(bytes, i) {
            Some(end) => {
                let means = match ANSIEscapeCode::parse_at(bytes, i) {
                    Ok(code) => Modifier::try_from(code).is_ok(),
                    Err(_) => false,
                };
                if !means {
                    let mut k = i;
                    while k < end
                        invariant
                            i <= k <= end <= bytes.len(),
                            s == bytes@,
                            out@ == before + s.subrange(i as int, k as int),
                        decreases end - k,
                    {
                        out.push(bytes[k]);
                        proof {
                            assert(s.subrange(i as int, k as int).push(s[k as int]) =~= s.subrange(
                                i as int,
                                k + 1,
                            ));
                            assert(before + s.subrange(i as int, k as int).push(s[k as int])
                                =~= (before + s.subrange(i as int, k as int)).push(s[k as int]));
                        }
                        k = k + 1;
                    }
                    proof {
                        assert(before + (s.subrange(i as int, end as int) + stripped_from(
                            s,
                            end as int,
                        )) =~= out@ + stripped_from(s, end as int));
                    }
                } else {
                    assert(out@ =~= before + s.subrange(i as int, i as int));
                }
                i = end;
            },
            None => {
                out.push(bytes[i]);
                proof {
                    assert(before + (seq![s[i as int]] + stripped_from(s, i + 1)) =~= out@
                        + stripped_from(s, i + 1));
                }
                i = i + 1;
            },
        }
    }
    proof {
        assert(out@ + stripped_from(s, i as int) =~= out@);
    }
    out
}

/// What stands before a text does not change what is left of the text without its
/// modifiers.
pub proof fn lemma_strip_shift(p: Seq<u8>, s: Seq<u8>, i: int)
    requires
        0 <= i <= s.len(),
    ensures
        stripped_from(p + s, p.len() + i) == stripped_from(s, i),
    decreases s.len() - i,
{
    let t = p + s;
    let j = p.len() + i;
    if i < s.len() {
        lemma_match_shift(p, s, i);
        assert(t[j] == s[i]);
        match match_end(s, i) {
            Some(e) => {
                lemma_match_end(s, i);
                lemma_strip_shift(p, s, e);
                assert(t.subrange(j, p.len() + e) =~= s.subrange(i, e));
            },
            None => {
                lemma_strip_shift(p, s, i + 1);
            },
        }
    }
}

/// What stands after a text, if it is nothing or begins with the escape byte, does
/// not change what is left of the text without its modifiers.
pub proof fn lemma_strip_extend(s: Seq<u8>, q: Seq<u8>, i: int)
    requires
        0 <= i <= s.len(),
        q.len() == 0 || q[0] == ESC,
    ensures
        stripped_from(s + q, i) == stripped_from(s, i) + stripped_from(s + q, s.len() as int),
    decreases s.len() - i,
{
    let t = s + q;
    if i < s.len() {
        lemma_match_extend(s, q, i);
        assert(t[i] == s[i]);
        match match_end(s, i) {
            Some(e) => {
                lemma_match_end(s, i);
                lemma_strip_extend(s, q, e);
                assert(t.subrange(i, e) =~= s.subrange(i, e));
                let tail = stripped_from(t, s.len() as int);
                assert(s.subrange(i, e) + (stripped_from(s, e) + tail) =~= (s.subrange(i, e)
                    + stripped_from(s, e)) + tail);
            },
            None => {
                lemma_strip_extend(s, q, i + 1);
                let tail = stripped_from(t, s.len() as int);
                assert(seq![s[i]] + (stripped_from(s, i + 1) + tail) =~= (seq![s[i]]
                    + stripped_from(s, i + 1)) + tail);
            },
        }
    } else {
        assert(stripped_from(s, i) + stripped_from(t, s.len() as int) =~= stripped_from(
            t,
            s.len() as int,
        ));
    }
}

/// Of two texts one after the other, where the second is nothing or begins with the
/// escape byte, what is left without the modifiers is what is left of the one and
/// then what is left of the other.
pub proof fn lemma_strip_concat(s: Seq<u8>, q: Seq<u8>)
    requires
        q.len() == 0 || q[0] == ESC,
    ensures
        stripped(s + q) == stripped(s) + stripped(q),
{
    lemma_strip_extend(s, q, 0);
    lemma_strip_shift(s, q, 0);
}

/// A control sequence that means something, written out before a text, is left out
/// of it again.
pub proof fn lemma_strip_code(c: EscapeCodeView, rest: Seq<u8>)
    requires
        c.well_formed(),
        Modifier::decoded(c) is Ok,
    ensures
        c.text().len() >= 4,
        c.text()[0] == ESC,
        stripped(c.text() + rest) == stripped(rest),
{
    let s = c.text() + rest;
    lemma_written_is_read(c, rest);
    lemma_match_end(s, 0);
    let r = parsed_at(s, 0)->Ok_0;
    assert(Modifier::decoded(r) is Ok) by {
        assert(r.code == c.code);
        assert(r.modifiers == c.modifiers);
        assert(r.end_char == c.end_char);
    }
    assert(meaning(s, 0) is Some);
    lemma_strip_shift(c.text(), rest, 0);
    assert(s[0] == c.text()[0]);
}

/// The control sequence of a single modifier is well formed and means something.
pub proof fn lemma_leaf_code(m: ModifierView)
    requires
        m.escape_code() is Some,
    ensures
        m.escape_code()->0.well_formed(),
        Modifier::decoded(m.escape_code()->0) is Ok,
{
    law_modifier_round_trip(m);
    let c = m.escape_code()->0;
    assert(c.integers().len() >= 1);
}

/// What a row of modifiers writes before a text is left out of it again, and is
/// nothing or begins with the escape byte.
pub proof fn lemma_strip_texts(ms: Seq<ModifierView>, rest: Seq<u8>)
    ensures
        stripped(texts(ms) + rest) == stripped(rest),
        texts(ms).len() == 0 || texts(ms)[0] == ESC,
    decreases ms,
{
    if ms.len() == 0 {
        assert(texts(ms) + rest =~= rest);
    } else {
        let head = ms[0].text();
        let tail = texts(ms.drop_first());
        lemma_strip_texts(ms.drop_first(), rest);
        lemma_strip_text(ms[0], tail + rest);
        assert((head + tail) + rest =~= head + (tail + rest));
        if head.len() == 0 {
            assert(head + tail =~= tail);
        } else {
            assert((head + tail)[0] == head[0]);
        }
    }
}

/// What a modifier writes before a text is left out of it again, and is nothing or
/// begins with the escape byte.
pub proof fn lemma_strip_text(m: ModifierView, rest: Seq<u8>)
    ensures
        stripped(m.text() + rest) == stripped(rest),
        m.text().len() == 0 || m.text()[0] == ESC,
    decreases m,
{
    match m {
        ModifierView::Combo(ms) => {
            lemma_strip_texts(ms, rest);
        },
        ModifierView::Nothing => {
            assert(m.text() + rest =~= rest);
        },
        _ => {
            lemma_leaf_code(m);
            lemma_strip_code(m.escape_code()->0, rest);
        },
    }
}

/// A text with a row of modifiers put round it is, without its modifiers, what the
/// text is without its modifiers.
pub proof fn lemma_wrap_all_then_strip(ms: Seq<ModifierView>, t: Seq<u8>)
    ensures
        stripped(wrapped_all(ms, t)) == stripped(t),
    decreases ms,
{
    if ms.len() > 0 {
        lemma_wrap_all_then_strip(ms.drop_first(), t);
        law_wrap_then_strip_any(ms[0], wrapped_all(ms.drop_first(), t));
    }
}

/// A text with a modifier put round it is, without its modifiers, what the text is
/// without its modifiers.  This holds of every modifier, moves of the cursor too.
pub proof fn law_wrap_then_strip_any(m: ModifierView, t: Seq<u8>)
    ensures
        stripped(m.wrapped(t)) == stripped(t),
    decreases m,
{
    match m {
        ModifierView::Combo(ms) => {
            lemma_wrap_all_then_strip(ms, t);
        },
        ModifierView::Nothing => {},
        _ => {
            let open = m.text();
            let close = m.reset(Some(t)).text();
            lemma_strip_text(m, t + close);
            lemma_strip_text(m.reset(Some(t)), Seq::empty());
            lemma_strip_concat(t, close);
            assert(open + t + close =~= open + (t + close));
            assert(close + Seq::<u8>::empty() =~= close);
            assert(stripped(Seq::<u8>::empty()) =~= Seq::<u8>::empty());
            assert(stripped(t) + Seq::<u8>::empty() =~= stripped(t));
        },
    }
}

/// A text in which no modifier is found stays as it is when its modifiers are taken
/// out.
pub proof fn lemma_strip_plain(s: Seq<u8>, i: int)
    requires
        0 <= i <= s.len(),
        modifiers_from(s, i).len() == 0,
    ensures
        stripped_from(s, i) == s.subrange(i, s.len() as int),
    decreases s.len() - i,
{
    if i < s.len() {
        match match_end(s, i) {
            Some(e) => {
                lemma_match_end(s, i);
                assert(next_match(s, i) == Some((i, e)));
                if let Some(m) = meaning(s, i) {
                    assert(modifiers_from(s, i) =~= seq![m] + modifiers_from(s, e));
                }
                lemma_strip_plain(s, e);
                assert(s.subrange(i, e) + s.subrange(e, s.len() as int) =~= s.subrange(
                    i,
                    s.len() as int,
                ));
            },
            None => {
                assert(next_match(s, i) == next_match(s, i + 1));
                assert(modifiers_from(s, i) == modifiers_from(s, i + 1));
                lemma_strip_plain(s, i + 1);
                assert(seq![s[i]] + s.subrange(i + 1, s.len() as int) =~= s.subrange(
                    i,
                    s.len() as int,
                ));
            },
        }
    } else {
        assert(s.subrange(i, s.len() as int) =~= Seq::<u8>::empty());
    }
}

/// Putting a modifier round a text in which no modifier is found, and taking the
/// modifiers out again, gives the text back.
pub proof fn law_wrap_then_strip(m: ModifierView, t: Seq<u8>)
    requires
        modifiers_in(t).len() == 0,
    ensures
        stripped(m.wrapped(t)) == t,
{
    law_wrap_then_strip_any(m, t);
    lemma_strip_plain(t, 0);
    assert(t.subrange(0, t.len() as int) =~= t);
}


/// What a single modifier writes is found at the start of any text that begins with
/// it, as long as the modifier writes it, and read as a modifier that is the same.
pub proof fn law_written_is_found(m: ModifierView, rest: Seq<u8>)
    requires
        m.escape_code() is Some,
    ensures
        match_end(m.text() + rest, 0) == Some(m.text().len() as int),
        meaning(m.text() + rest, 0) is Some,
        meaning(m.text() + rest, 0)->0.same_as(m),
{
    let c = m.escape_code()->0;
    lemma_leaf_code(m);
    lemma_written_is_read(c, rest);
    law_modifier_round_trip(m);
    let r = parsed_at(c.text() + rest, 0)->Ok_0;
    assert(Modifier::decoded(r) == Modifier::decoded(c)) by {
        assert(r.code == c.code);
        assert(r.modifiers == c.modifiers);
        assert(r.end_char == c.end_char);
    }
}

/// The text from `pos` on with the control sequences cut out that the search for
/// modifiers finds and gives a meaning: what stands before the next control
/// sequence, that sequence itself only if it means nothing, and so on after it.
pub open spec fn cut_from(s: Seq<u8>, pos: int) -> Seq<u8>
    decreases s.len() - pos,
{
    if pos < 0 || pos > s.len() {
        Seq::empty()
    } else {
        match next_match(s, pos) {
            None => s.subrange(pos, s.len() as int),
            Some((start, end)) => {
                proof {
                    crate::search::lemma_next_match(s, pos);
                }
                if meaning(s, start) is Some {
                    s.subrange(pos, start) + cut_from(s, end)
                } else {
                    s.subrange(pos, end) + cut_from(s, end)
                }
            },
        }
    }
}

/// Taking the modifiers out of a text cuts out just the control sequences from which
/// the search for modifiers gets its modifiers, each of them whole.
pub proof fn law_stripped_is_cut(s: Seq<u8>, pos: int)
    requires
        0 <= pos <= s.len(),
    ensures
        stripped_from(s, pos) == cut_from(s, pos),
    decreases s.len() - pos,
{
    if pos < s.len() {
        match match_end(s, pos) {
            Some(end) => {
                lemma_match_end(s, pos);
                law_stripped_is_cut(s, end);
                assert(s.subrange(pos, pos) =~= Seq::<u8>::empty());
                assert(s.subrange(pos, pos) + cut_from(s, end) =~= cut_from(s, end));
            },
            None => {
                law_stripped_is_cut(s, pos + 1);
                assert(next_match(s, pos) == next_match(s, pos + 1));
                match next_match(s, pos + 1) {
                    None => {
                        assert(seq![s[pos]] + s.subrange(pos + 1, s.len() as int) =~= s.subrange(
                            pos,
                            s.len() as int,
                        ));
                    },
                    Some((start, end)) => {
                        crate::search::lemma_next_match(s, pos + 1);
                        assert(seq![s[pos]] + s.subrange(pos + 1, start) =~= s.subrange(pos, start));
                        assert(seq![s[pos]] + s.subrange(pos + 1, end) =~= s.subrange(pos, end));
                        assert(seq![s[pos]] + (s.subrange(pos + 1, start) + cut_from(s, end)) =~= (
                        seq![s[pos]] + s.subrange(pos + 1, start)) + cut_from(s, end));
                        assert(seq![s[pos]] + (s.subrange(pos + 1, end) + cut_from(s, end)) =~= (
                        seq![s[pos]] + s.subrange(pos + 1, end)) + cut_from(s, end));
                    },
                }
            },
        }
    } else {
        assert(s.subrange(pos, s.len() as int) =~= Seq::<u8>::empty());
    }
}

} // verus!
