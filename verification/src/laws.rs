//! What holds of the families and of rows of modifiers, whatever the values.

use vstd::prelude::*;
use crate::background::Background;
use crate::clear::Clear;
use crate::colour::Colour;
use crate::cursor::MoveCursor;
use crate::intensity::Intensity;
use crate::modifier::{leaves_of, same_rows, Modifier, ModifierView};
use crate::traits::IntoANSIEscapeCode;

verus! {

/// An intensity is read back from its control sequence.
pub proof fn law_intensity_round_trip(v: Intensity)
    ensures
        Intensity::decoded(v.escape_code()) == Ok::<Intensity, crate::error::ModifierError>(v),
{
}

/// A colour of the text is read back from its control sequence.
pub proof fn law_colour_round_trip(v: Colour)
    ensures
        Colour::decoded(v.escape_code()) == Ok::<Colour, crate::error::ModifierError>(v),
{
}

/// A colour behind the text is read back from its control sequence.
pub proof fn law_background_round_trip(v: Background)
    ensures
        Background::decoded(v.escape_code()) == Ok::<Background, crate::error::ModifierError>(v),
{
}

/// A clearing is read back from its control sequence.
pub proof fn law_clear_round_trip(v: Clear)
    ensures
        Clear::decoded(v.escape_code()) == Ok::<Clear, crate::error::ModifierError>(v),
{
}

/// A move of the cursor is read back from its control sequence as a move that is the
/// same: the very same move, but for a negative distance, which comes back as the
/// distance the other way, and for the place `(0, 0)`, which comes back as the
/// origin.
pub proof fn law_move_cursor_round_trip(v: MoveCursor)
    ensures
        MoveCursor::decoded(v.escape_code()) is Ok,
        MoveCursor::decoded(v.escape_code())->Ok_0.same_as(v),
        MoveCursor::decoded(v.escape_code())->Ok_0.escape_code() == v.escape_code(),
{
}

/// A single modifier of any family is read back from its control sequence, by its own
/// family, as a modifier that is the same.
pub proof fn law_modifier_round_trip(m: ModifierView)
    requires
        m.escape_code() is Some,
    ensures
        Modifier::decoded(m.escape_code()->0) is Ok,
        Modifier::decoded(m.escape_code()->0)->Ok_0@.same_as(m),
        Modifier::decoded(m.escape_code()->0)->Ok_0@.escape_code() == m.escape_code(),
{
    match m {
        ModifierView::Intensity(v) => law_intensity_round_trip(v),
        ModifierView::Colour(v) => law_colour_round_trip(v),
        ModifierView::Background(v) => law_background_round_trip(v),
        ModifierView::Clear(v) => law_clear_round_trip(v),
        ModifierView::MoveCursor(v) => law_move_cursor_round_trip(v),
        _ => {},
    }
}

/// The modifier that changes nothing leaves the other one as it is, on either side.
pub proof fn law_nothing_is_neutral(m: ModifierView)
    ensures
        ModifierView::Nothing.combined(m) == m,
        m.combined(ModifierView::Nothing) == m,
{
}

/// The single modifiers of two rows put together are those of the one and then those
/// of the other.
pub proof fn lemma_leaves_of_concat(a: Seq<ModifierView>, b: Seq<ModifierView>)
    ensures
        leaves_of(a + b) == leaves_of(a) + leaves_of(b),
    decreases a.len(),
{
    if a.len() == 0 {
        assert(a + b =~= b);
        assert(leaves_of(a) + leaves_of(b) =~= leaves_of(b));
    } else {
        lemma_leaves_of_concat(a.drop_first(), b);
        assert((a + b).drop_first() =~= a.drop_first() + b);
        assert((a + b)[0] == a[0]);
        assert(leaves_of(a + b) =~= leaves_of(a) + leaves_of(b));
    }
}

/// The members that a modifier brings into a row hold the single modifiers that the
/// modifier holds.
pub proof fn lemma_leaves_of_members(m: ModifierView)
    ensures
        leaves_of(m.members()) == m.leaves(),
{
    match m {
        ModifierView::Combo(_) => {},
        ModifierView::Nothing => {},
        _ => {
            let row = seq![m];
            assert(row.drop_first() =~= Seq::<ModifierView>::empty());
            assert(leaves_of(row.drop_first()) =~= Seq::<ModifierView>::empty());
            assert(leaves_of(row) =~= m.leaves());
        },
    }
}

/// Putting two modifiers in a row keeps their single modifiers in order: those of
/// the first, then those of the second.
pub proof fn law_combine_keeps_order(a: ModifierView, b: ModifierView)
    ensures
        a.combined(b).leaves() == a.leaves() + b.leaves(),
{
    if a is Nothing {
        assert(a.leaves() + b.leaves() =~= b.leaves());
    } else if b is Nothing {
        assert(a.leaves() + b.leaves() =~= a.leaves());
    } else {
        lemma_leaves_of_concat(a.members(), b.members());
        lemma_leaves_of_members(a);
        lemma_leaves_of_members(b);
    }
}

/// Putting modifiers in a row is associative: however three of them are grouped, the
/// result is the same row, and so its single modifiers stand in the same order.
pub proof fn law_combine_associative(a: ModifierView, b: ModifierView, c: ModifierView)
    ensures
        a.combined(b).combined(c) == a.combined(b.combined(c)),
        a.combined(b).combined(c).leaves() == a.combined(b.combined(c)).leaves(),
        a.combined(b).combined(c).leaves() == a.leaves() + b.leaves() + c.leaves(),
{
    if !(a is Nothing) && !(b is Nothing) && !(c is Nothing) {
        assert((a.members() + b.members()) + c.members() =~= a.members() + (b.members()
            + c.members()));
    }
    law_combine_keeps_order(a, b);
    law_combine_keeps_order(a.combined(b), c);
}


/// No two intensities have the same name, so a name stands for one intensity at most.
pub proof fn law_intensity_names_distinct(a: Intensity, b: Intensity)
    requires
        a.spec_name() == b.spec_name(),
    ensures
        a == b,
{
    reveal_strlit("Normal");
    reveal_strlit("Bold");
    reveal_strlit("Faint");
    assert("Normal"@.len() == 6 && "Bold"@.len() == 4 && "Faint"@.len() == 5);
    assert(a.spec_name().len() == b.spec_name().len());
}

/// No two colours of the text have the same name, so a name stands for one colour at
/// most.
pub proof fn law_colour_names_distinct(a: Colour, b: Colour)
    requires
        a.spec_name() == b.spec_name(),
    ensures
        a == b,
{
    match (a, b) {
        (Colour::Palette(i), Colour::Palette(j)) => crate::palette::law_palette_names_distinct(i, j),
        (Colour::Palette(i), Colour::Reset) => crate::palette::law_palette_names_distinct(i, i),
        (Colour::Reset, Colour::Palette(j)) => crate::palette::law_palette_names_distinct(j, j),
        _ => {},
    }
}

/// No two colours behind the text have the same name, so a name stands for one colour
/// at most.
pub proof fn law_background_names_distinct(a: Background, b: Background)
    requires
        a.spec_name() == b.spec_name(),
    ensures
        a == b,
{
    match (a, b) {
        (Background::Palette(i), Background::Palette(j)) => {
            crate::palette::law_palette_names_distinct(i, j)
        },
        (Background::Palette(i), Background::Reset) => {
            crate::palette::law_palette_names_distinct(i, i)
        },
        (Background::Reset, Background::Palette(j)) => {
            crate::palette::law_palette_names_distinct(j, j)
        },
        _ => {},
    }
}


/// The bytes of a text that belong to none of its modifiers, and what its modifiers
/// take up when written, make up the length of the text; neither is negative.
pub proof fn law_visible_length(s: Seq<u8>)
    ensures
        crate::search::visible_len(s) + crate::modifier::lens(crate::search::modifiers_in(s))
            == s.len(),
        0 <= crate::search::visible_len(s) <= s.len(),
{
    crate::measure::lemma_modifiers_fit(s, 0);
}

/// Being the same move is an equivalence: every move is the same as itself, the
/// order of the two does not matter, and two moves that are the same as a third are
/// the same.
pub proof fn law_same_move(a: MoveCursor, b: MoveCursor, c: MoveCursor)
    ensures
        a.same_as(a),
        a.same_as(b) == b.same_as(a),
        a.same_as(b) && b.same_as(c) ==> a.same_as(c),
{
}

/// Being the same row is an equivalence.
pub proof fn lemma_same_rows(a: Seq<ModifierView>, b: Seq<ModifierView>, c: Seq<ModifierView>)
    ensures
        same_rows(a, a),
        same_rows(a, b) == same_rows(b, a),
        same_rows(a, b) && same_rows(b, c) ==> same_rows(a, c),
    decreases a,
{
    if a.len() > 0 {
        law_same_modifier(a[0], a[0], a[0]);
        lemma_same_rows(a.drop_first(), a.drop_first(), a.drop_first());
        if b.len() > 0 {
            law_same_modifier(a[0], b[0], b[0]);
            lemma_same_rows(a.drop_first(), b.drop_first(), b.drop_first());
            if c.len() > 0 {
                law_same_modifier(a[0], b[0], c[0]);
                lemma_same_rows(a.drop_first(), b.drop_first(), c.drop_first());
            }
        }
    }
}

/// Being the same modifier, which is what `==` tells, is an equivalence.
pub proof fn law_same_modifier(a: ModifierView, b: ModifierView, c: ModifierView)
    ensures
        a.same_as(a),
        a.same_as(b) == b.same_as(a),
        a.same_as(b) && b.same_as(c) ==> a.same_as(c),
    decreases a,
{
    match (a, b, c) {
        (ModifierView::MoveCursor(x), ModifierView::MoveCursor(y), ModifierView::MoveCursor(z)) => {
            law_same_move(x, y, z);
        },
        (ModifierView::MoveCursor(x), ModifierView::MoveCursor(y), _) => {
            law_same_move(x, y, y);
        },
        (ModifierView::MoveCursor(x), _, _) => {
            law_same_move(x, x, x);
        },
        (ModifierView::Combo(x), ModifierView::Combo(y), ModifierView::Combo(z)) => {
            lemma_same_rows(x, y, z);
        },
        (ModifierView::Combo(x), ModifierView::Combo(y), _) => {
            lemma_same_rows(x, y, y);
        },
        (ModifierView::Combo(x), _, _) => {
            lemma_same_rows(x, x, x);
        },
        _ => {},
    }
}

} // verus!
