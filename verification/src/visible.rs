//! Putting a modifier round a text leaves as much of the text to be seen as before.

use vstd::prelude::*;
use crate::escape_code::parsed_at;
use crate::grammar::{lemma_match_end, match_end, ESC};
use crate::laws::law_modifier_round_trip;
use crate::locality::{lemma_match_extend, lemma_match_shift};
use crate::modifier::{lemma_len_is_text_len, lens, Modifier, ModifierView};
use crate::roundtrip::lemma_written_is_read;
use crate::search::{meaning, modifiers_from, modifiers_in, next_match, visible_len};
use crate::strip::{lemma_leaf_code, lemma_strip_text};
use crate::wrap::wrapped_all;

verus! {

/// The modifiers from a place on: where a control sequence starts at the place, what
/// it means, if anything, and then the modifiers after it; else the modifiers from
/// the next place on.
pub proof fn lemma_modifiers_step(s: Seq<u8>, i: int)
    requires
        0 <= i < s.len(),
    ensures
        modifiers_from(s, i) == match match_end(s, i) {
            Some(end) => match meaning(s, i) {
                Some(m) => seq![m] + modifiers_from(s, end),
                None => modifiers_from(s, end),
            },
            None => modifiers_from(s, i + 1),
        },
{
    if match_end(s, i) is None {
        assert(next_match(s, i) == next_match(s, i + 1));
    }
}

/// What two rows take up together is what the one and the other take up.
pub proof fn lemma_lens_concat(a: Seq<ModifierView>, b: Seq<ModifierView>)
    ensures
        lens(a + b) == lens(a) + lens(b),
    decreases a.len(),
{
    if a.len() == 0 {
        assert(a + b =~= b);
    } else {
        lemma_lens_concat(a.drop_first(), b);
        assert((a + b).drop_first() =~= a.drop_first() + b);
        assert((a + b)[0] == a[0]);
    }
}

/// What stands before a text does not change the modifiers in it.
pub proof fn lemma_modifiers_shift(p: Seq<u8>, s: Seq<u8>, i: int)
    requires
        0 <= i <= s.len(),
    ensures
        modifiers_from(p + s, p.len() + i) == modifiers_from(s, i),
    decreases s.len() - i,
{
    if i < s.len() {
        lemma_match_shift(p, s, i);
        lemma_modifiers_step(s, i);
        lemma_modifiers_step(p + s, p.len() + i);
        match match_end(s, i) {
            Some(end) => {
                lemma_match_end(s, i);
                lemma_modifiers_shift(p, s, end);
            },
            None => {
                lemma_modifiers_shift(p, s, i + 1);
            },
        }
    }
}

/// What stands after a text, if it is nothing or begins with the escape byte, does
/// not change the modifiers in it.
pub proof fn lemma_modifiers_extend(s: Seq<u8>, q: Seq<u8>, i: int)
    requires
        0 <= i <= s.len(),
        q.len() == 0 || q[0] == ESC,
    ensures
        modifiers_from(s + q, i) == modifiers_from(s, i) + modifiers_from(s + q, s.len() as int),
    decreases s.len() - i,
{
    let t = s + q;
    let tail = modifiers_from(t, s.len() as int);
    if i < s.len() {
        lemma_match_extend(s, q, i);
        lemma_modifiers_step(s, i);
        lemma_modifiers_step(t, i);
        match match_end(s, i) {
            Some(end) => {
                lemma_match_end(s, i);
                lemma_modifiers_extend(s, q, end);
                if let Some(m) = meaning(s, i) {
                    assert(seq![m] + (modifiers_from(s, end) + tail) =~= (seq![m] + modifiers_from(
                        s,
                        end,
                    )) + tail);
                }
            },
            None => {
                lemma_modifiers_extend(s, q, i + 1);
            },
        }
    } else {
        assert(modifiers_from(s, i) + tail =~= tail);
    }
}

/// Of two texts one after the other, where the second is nothing or begins with the
/// escape byte, the modifiers are those of the one and then those of the other.
pub proof fn lemma_modifiers_concat(s: Seq<u8>, q: Seq<u8>)
    requires
        q.len() == 0 || q[0] == ESC,
    ensures
        modifiers_in(s + q) == modifiers_in(s) + modifiers_in(q),
{
    lemma_modifiers_extend(s, q, 0);
    lemma_modifiers_shift(s, q, 0);
}

/// What a row of modifiers writes before a text adds to the modifiers found what the
/// row takes up, and nothing else.
pub proof fn lemma_written_rows_found(ms: Seq<ModifierView>, rest: Seq<u8>)
    ensures
        lens(modifiers_in(crate::modifier::texts(ms) + rest)) == lens(ms) + lens(
            modifiers_in(rest),
        ),
    decreases ms,
{
    if ms.len() == 0 {
        assert(crate::modifier::texts(ms) + rest =~= rest);
    } else {
        let head = ms[0].text();
        let tail = crate::modifier::texts(ms.drop_first());
        lemma_written_rows_found(ms.drop_first(), rest);
        lemma_written_found(ms[0], tail + rest);
        assert((head + tail) + rest =~= head + (tail + rest));
    }
}

/// What a modifier writes before a text adds to the modifiers found what the
/// modifier takes up, and nothing else.
pub proof fn lemma_written_found(m: ModifierView, rest: Seq<u8>)
    ensures
        lens(modifiers_in(m.text() + rest)) == m.len() + lens(modifiers_in(rest)),
    decreases m,
{
    match m {
        ModifierView::Combo(ms) => {
            lemma_written_rows_found(ms, rest);
        },
        ModifierView::Nothing => {
            assert(m.text() + rest =~= rest);
        },
        _ => {
            let c = m.escape_code()->0;
            let s = c.text() + rest;
            lemma_leaf_code(m);
            lemma_written_is_read(c, rest);
            law_modifier_round_trip(m);
            lemma_match_end(s, 0);
            let r = parsed_at(s, 0)->Ok_0;
            assert(Modifier::decoded(r) == Modifier::decoded(c)) by {
                assert(r.code == c.code);
                assert(r.modifiers == c.modifiers);
                assert(r.end_char == c.end_char);
            }
            let found = meaning(s, 0)->0;
            assert(found.escape_code() == m.escape_code());
            assert(found.len() == m.len());
            lemma_modifiers_step(s, 0);
            lemma_modifiers_shift(c.text(), rest, 0);
            let after = modifiers_in(rest);
            let all = seq![found] + after;
            assert(all.drop_first() =~= after);
            assert(all[0] == found);
        },
    }
}

/// A text with a row of modifiers put round it leaves as much to be seen as the text.
pub proof fn lemma_wrap_all_keeps_visible(ms: Seq<ModifierView>, t: Seq<u8>)
    ensures
        visible_len(wrapped_all(ms, t)) == visible_len(t),
    decreases ms,
{
    if ms.len() > 0 {
        lemma_wrap_all_keeps_visible(ms.drop_first(), t);
        law_wrap_keeps_visible(ms[0], wrapped_all(ms.drop_first(), t));
    }
}

/// Putting a modifier round a text leaves as much of it to be seen as before: the
/// bytes that belong to none of its modifiers are as many as they were.  This is why
/// a move of the cursor inside a row is undone by the right distance.
pub proof fn law_wrap_keeps_visible(m: ModifierView, t: Seq<u8>)
    ensures
        visible_len(m.wrapped(t)) == visible_len(t),
    decreases m,
{
    match m {
        ModifierView::Combo(ms) => {
            lemma_wrap_all_keeps_visible(ms, t);
        },
        ModifierView::Nothing => {},
        _ => {
            let open = m.text();
            let closing = m.reset(Some(t));
            let close = closing.text();
            lemma_strip_text(closing, Seq::empty());
            lemma_written_found(m, t + close);
            lemma_modifiers_concat(t, close);
            lemma_lens_concat(modifiers_in(t), modifiers_in(close));
            lemma_written_found(closing, Seq::empty());
            lemma_len_is_text_len(m);
            lemma_len_is_text_len(closing);
            assert(open + t + close =~= open + (t + close));
            assert(close + Seq::<u8>::empty() =~= close);
            assert(modifiers_in(Seq::<u8>::empty()) =~= Seq::<ModifierView>::empty());
        },
    }
}

} // verus!
