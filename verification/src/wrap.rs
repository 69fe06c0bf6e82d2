//! Undoing a modifier, and putting a modifier round a text.

use vstd::prelude::*;
use vstd::string::StringSliceAdditionalSpecFns;
use vstd::utf8::*;
use crate::background::Background;
use crate::colour::Colour;
use crate::cursor::{text_of, MoveCursor};
use crate::intensity::Intensity;
use crate::modifier::{lemma_combo_view, views, Modifier, ModifierView};
use crate::text::push_text;

verus! {

/// True when each modifier of `ms` can be undone after `input` was written.
pub open spec fn all_can_reset(ms: Seq<ModifierView>, input: Option<Seq<u8>>) -> bool
    decreases ms,
{
    ms.len() == 0 || (ms[0].can_reset(input) && all_can_reset(ms.drop_first(), input))
}

/// What undoes each modifier of `ms`, in the opposite order: the last one is undone
/// first.
pub open spec fn resets(ms: Seq<ModifierView>, input: Option<Seq<u8>>) -> Seq<ModifierView>
    decreases ms,
{
    if ms.len() == 0 {
        Seq::empty()
    } else {
        resets(ms.drop_first(), input).push(ms[0].reset(input))
    }
}

/// The text `t` with the modifiers of `ms` put round it.  The last modifier is put
/// round the text first, the first one round everything else, so that the modifiers
/// stand before the text in their order and what undoes them after it in the
/// opposite order.
pub open spec fn wrapped_all(ms: Seq<ModifierView>, t: Seq<u8>) -> Seq<u8>
    decreases ms,
{
    if ms.len() == 0 {
        t
    } else {
        ms[0].wrapped(wrapped_all(ms.drop_first(), t))
    }
}

/// True when each modifier of `ms` can be undone after what it is put round.
pub open spec fn can_wrap_all(ms: Seq<ModifierView>, t: Seq<u8>) -> bool
    decreases ms,
{
    ms.len() == 0 || (can_wrap_all(ms.drop_first(), t) && ms[0].can_wrap(
        wrapped_all(ms.drop_first(), t),
    ))
}

impl ModifierView {
    /// True when the modifier can be undone after `input` was written: when the
    /// distance of every move back can be held in 32 bits.
    pub open spec fn can_reset(self, input: Option<Seq<u8>>) -> bool
        decreases self,
    {
        match self {
            ModifierView::MoveCursor(m) => m.can_reset(input),
            ModifierView::Combo(ms) => all_can_reset(ms, input),
            _ => true,
        }
    }

    /// The modifier that undoes this one after `input` was written.  Intensity and
    /// colours go back to what the terminal uses by itself.  What was cleared stays
    /// cleared: nothing undoes it.  A row is undone member by member, the last one
    /// first.
    pub open spec fn reset(self, input: Option<Seq<u8>>) -> ModifierView
        decreases self,
    {
        match self {
            ModifierView::Intensity(_) => ModifierView::Intensity(Intensity::Normal),
            ModifierView::Colour(_) => ModifierView::Colour(Colour::Reset),
            ModifierView::Background(_) => ModifierView::Background(Background::Reset),
            ModifierView::Clear(_) => ModifierView::Nothing,
            ModifierView::MoveCursor(m) => ModifierView::MoveCursor(m.reset(input)),
            ModifierView::Combo(ms) => ModifierView::Combo(resets(ms, input)),
            ModifierView::Nothing => ModifierView::Nothing,
        }
    }

    /// True when the modifier can be put round `t`: when it can be undone after what
    /// it is put round.
    pub open spec fn can_wrap(self, t: Seq<u8>) -> bool
        decreases self,
    {
        match self {
            ModifierView::Combo(ms) => can_wrap_all(ms, t),
            _ => self.can_reset(Some(t)),
        }
    }

    /// The text `t` with the modifier put round it: what the modifier writes, the
    /// text, and what the modifier that undoes it writes.
    pub open spec fn wrapped(self, t: Seq<u8>) -> Seq<u8>
        decreases self,
    {
        match self {
            ModifierView::Combo(ms) => wrapped_all(ms, t),
            ModifierView::Nothing => t,
            _ => self.text() + t + self.reset(Some(t)).text(),
        }
    }
}

impl Modifier {
    /// The modifier that undoes this one after `input` was written.
    pub fn resetter(&self, input: Option<&str>) -> (r: Modifier)
        requires
            self@.can_reset(text_of(input)),
        ensures
            r@ == self@.reset(text_of(input)),
        decreases self,
    {
        match self {
            Modifier::Intensity(m) => Modifier::Intensity(m.resetter(input)),
            Modifier::Colour(m) => Modifier::Colour(m.resetter(input)),
            Modifier::Background(m) => Modifier::Background(m.resetter(input)),
            Modifier::Clear(_) => Modifier::Nothing,
            Modifier::MoveCursor(m) => Modifier::MoveCursor(m.resetter(input)),
            Modifier::Nothing => Modifier::Nothing,
            Modifier::Combo(v) => {
                let ghost all = views(v@);
                let ghost text = text_of(input);
                proof {
                    lemma_combo_view(*v);
                }
                let mut out: Vec<Modifier> = Vec::new();
                let mut i: usize = v.len();
                proof {
                    assert(all.subrange(i as int, all.len() as int) =~= Seq::<ModifierView>::empty());
                    assert(views(out@) =~= Seq::<ModifierView>::empty());
                }
                while i > 0
                    invariant
                        i <= v.len(),
                        self is Combo,
                        self->Combo_0 == *v,
                        all == views(v@),
                        text == text_of(input),
                        all_can_reset(all, text),
                        views(out@) == resets(all.subrange(i as int, all.len() as int), text),
                    decreases i,
                {
                    i = i - 1;
                    proof {
                        lemma_all_can_reset(all, text, i as int);
                    }
                    let ghost sofar = views(out@);
                    let member = v[i].resetter(input);
                    let ghost view = member@;
                    out.push(member);
                    proof {
                        let tail = all.subrange(i as int, all.len() as int);
                        assert(tail.drop_first() =~= all.subrange(i + 1, all.len() as int));
                        assert(tail[0] == all[i as int]);
                        assert(views(out@) =~= sofar.push(view));
                    }
                }
                proof {
                    assert(all.subrange(0, all.len() as int) =~= all);
                    lemma_combo_view(out);
                }
                Modifier::Combo(out)
            },
        }
    }

    /// Tells whether the modifier can be put round `text`.
    pub fn wrappable(&self, text: &str) -> (r: bool)
        ensures
            r == self@.can_wrap(text.spec_bytes()),
        decreases self,
    {
        match self {
            Modifier::Combo(v) => {
                let ghost all = views(v@);
                let ghost t = text.spec_bytes();
                proof {
                    lemma_combo_view(*v);
                }
                let mut inner = text.to_owned();
                let mut i: usize = v.len();
                proof {
                    assert(all.subrange(i as int, all.len() as int) =~= Seq::<ModifierView>::empty());
                }
                while i > 0
                    invariant
                        i <= v.len(),
                        self is Combo,
                        self->Combo_0 == *v,
                        all == views(v@),
                        self@ == ModifierView::Combo(all),
                        t == text.spec_bytes(),
                        can_wrap_all(all.subrange(i as int, all.len() as int), t),
                        encode_utf8(inner@) == wrapped_all(
                            all.subrange(i as int, all.len() as int),
                            t,
                        ),
                    decreases i,
                {
                    i = i - 1;
                    proof {
                        let tail = all.subrange(i as int, all.len() as int);
                        assert(tail.drop_first() =~= all.subrange(i + 1, all.len() as int));
                        assert(tail[0] == all[i as int]);
                    }
                    if !v[i].wrappable(inner.as_str()) {
                        proof {
                            if can_wrap_all(all, t) {
                                lemma_can_wrap_all(all, t, i as int);
                            }
                        }
                        return false;
                    }
                    inner = v[i].wraps(inner.as_str());
                }
                proof {
                    assert(all.subrange(0, all.len() as int) =~= all);
                }
                true
            },
            Modifier::MoveCursor(m) => m.resettable(Some(text)),
            _ => true,
        }
    }

    /// Puts the modifier round `text`, if it can be.
    pub fn try_wraps(&self, text: &str) -> (r: Option<String>)
        ensures
            match r {
                Some(wrapped) => self@.can_wrap(text.spec_bytes()) && encode_utf8(wrapped@)
                    == self@.wrapped(text.spec_bytes()),
                None => !self@.can_wrap(text.spec_bytes()),
            },
    {
        if self.wrappable(text) {
            Some(self.wraps(text))
        } else {
            None
        }
    }

    /// Tells whether the modifier is a move of the cursor or holds one.
    pub fn moves_cursor(&self) -> (r: bool)
        ensures
            r == self@.moves_cursor(),
        decreases self,
    {
        match self {
            Modifier::MoveCursor(_) => true,
            Modifier::Combo(v) => {
                let ghost all = views(v@);
                proof {
                    lemma_combo_view(*v);
                    assert(all.subrange(all.len() as int, all.len() as int) =~= Seq::<
                        ModifierView,
                    >::empty());
                }
                let mut i: usize = v.len();
                while i > 0
                    invariant
                        i <= v.len(),
                        self is Combo,
                        self->Combo_0 == *v,
                        all == views(v@),
                        self@ == ModifierView::Combo(all),
                        !any_moves_cursor(all.subrange(i as int, all.len() as int)),
                    decreases i,
                {
                    i = i - 1;
                    proof {
                        let tail = all.subrange(i as int, all.len() as int);
                        assert(tail.drop_first() =~= all.subrange(i + 1, all.len() as int));
                        assert(tail[0] == all[i as int]);
                    }
                    if v[i].moves_cursor() {
                        proof {
                            lemma_moves_inside(all, i as int);
                        }
                        return true;
                    }
                }
                proof {
                    assert(all.subrange(0, all.len() as int) =~= all);
                }
                false
            },
            _ => false,
        }
    }

    /// Puts the modifier round `text`.
    pub fn wraps(&self, text: &str) -> (r: String)
        requires
            self@.can_wrap(text.spec_bytes()),
        ensures
            encode_utf8(r@) == self@.wrapped(text.spec_bytes()),
        decreases self,
    {
        match self {
            Modifier::Combo(v) => {
                let ghost all = views(v@);
                let ghost t = text.spec_bytes();
                proof {
                    lemma_combo_view(*v);
                }
                let mut out = text.to_owned();
                let mut i: usize = v.len();
                proof {
                    assert(all.subrange(i as int, all.len() as int) =~= Seq::<ModifierView>::empty());
                    lemma_can_wrap_all(all, t, all.len() as int);
                }
                while i > 0
                    invariant
                        i <= v.len(),
                        self is Combo,
                        self->Combo_0 == *v,
                        all == views(v@),
                        can_wrap_all(all, t),
                        encode_utf8(out@) == wrapped_all(all.subrange(i as int, all.len() as int), t),
                    decreases i,
                {
                    i = i - 1;
                    proof {
                        let tail = all.subrange(i as int, all.len() as int);
                        assert(tail.drop_first() =~= all.subrange(i + 1, all.len() as int));
                        assert(tail[0] == all[i as int]);
                        lemma_can_wrap_all(all, t, i as int);
                    }
                    out = v[i].wraps(out.as_str());
                }
                proof {
                    assert(all.subrange(0, all.len() as int) =~= all);
                }
                out
            },
            Modifier::Nothing => text.to_owned(),
            _ => {
                let mut out = String::new();
                self.write_to(&mut out);
                push_text(&mut out, text);
                let closing = self.resetter(Some(text));
                closing.write_to(&mut out);
                proof {
                    assert(encode_utf8(Seq::<char>::empty()) + self@.text() =~= self@.text());
                }
                out
            },
        }
    }
}

/// Where a row can be undone, each of its members can.
pub proof fn lemma_all_can_reset(ms: Seq<ModifierView>, input: Option<Seq<u8>>, k: int)
    requires
        all_can_reset(ms, input),
        0 <= k < ms.len(),
    ensures
        ms[k].can_reset(input),
    decreases k,
{
    if k > 0 {
        lemma_all_can_reset(ms.drop_first(), input, k - 1);
        assert(ms.drop_first()[k - 1] == ms[k]);
    }
}

/// Where a row can be put round a text, each of its members can be put round what
/// the members after it make of the text.
pub proof fn lemma_can_wrap_all(ms: Seq<ModifierView>, t: Seq<u8>, k: int)
    requires
        can_wrap_all(ms, t),
        0 <= k <= ms.len(),
    ensures
        can_wrap_all(ms.subrange(k, ms.len() as int), t),
        k < ms.len() ==> ms[k].can_wrap(wrapped_all(ms.subrange(k + 1, ms.len() as int), t)),
    decreases k,
{
    if k > 0 {
        let tail = ms.drop_first();
        lemma_can_wrap_all(tail, t, k - 1);
        assert(tail.subrange(k - 1, tail.len() as int) =~= ms.subrange(k, ms.len() as int));
        if k < ms.len() {
            assert(tail[k - 1] == ms[k]);
            assert(tail.subrange(k, tail.len() as int) =~= ms.subrange(k + 1, ms.len() as int));
        }
    } else {
        assert(ms.subrange(0, ms.len() as int) =~= ms);
        if ms.len() > 0 {
            assert(ms.drop_first() =~= ms.subrange(1, ms.len() as int));
        }
    }
}

impl Intensity {
    /// Puts the intensity round `text`: its control sequence, the text, and the
    /// control sequence of normal intensity.
    pub fn wraps(&self, text: &str) -> (r: String)
        ensures
            encode_utf8(r@) == ModifierView::Intensity(*self).wrapped(text.spec_bytes()),
    {
        Modifier::Intensity(*self).wraps(text)
    }
}

impl Colour {
    /// Puts the colour round `text`: its control sequence, the text, and the control
    /// sequence that gives the colour back to the terminal.
    pub fn wraps(&self, text: &str) -> (r: String)
        ensures
            encode_utf8(r@) == ModifierView::Colour(*self).wrapped(text.spec_bytes()),
    {
        Modifier::Colour(*self).wraps(text)
    }
}

impl Background {
    /// Puts the colour round `text`: its control sequence, the text, and the control
    /// sequence that gives the colour back to the terminal.
    pub fn wraps(&self, text: &str) -> (r: String)
        ensures
            encode_utf8(r@) == ModifierView::Background(*self).wrapped(text.spec_bytes()),
    {
        Modifier::Background(*self).wraps(text)
    }
}

impl MoveCursor {
    /// Puts the move round `text`: its control sequence, the text, and the control
    /// sequence of the move that undoes it.
    pub fn wraps(&self, text: &str) -> (r: String)
        requires
            self.can_reset(Some(text.spec_bytes())),
        ensures
            encode_utf8(r@) == ModifierView::MoveCursor(*self).wrapped(text.spec_bytes()),
    {
        Modifier::MoveCursor(*self).wraps(text)
    }
}


/// True when one of `ms` moves the cursor.
pub open spec fn any_moves_cursor(ms: Seq<ModifierView>) -> bool
    decreases ms,
{
    ms.len() > 0 && (ms[0].moves_cursor() || any_moves_cursor(ms.drop_first()))
}

impl ModifierView {
    /// True when the modifier is a move of the cursor or holds one.
    pub open spec fn moves_cursor(self) -> bool
        decreases self,
    {
        match self {
            ModifierView::MoveCursor(_) => true,
            ModifierView::Combo(ms) => any_moves_cursor(ms),
            _ => false,
        }
    }
}

/// A row that holds no move of the cursor can be undone after any text, and can be
/// put round any text.
pub proof fn lemma_still_rows(ms: Seq<ModifierView>, t: Seq<u8>, input: Option<Seq<u8>>)
    requires
        !any_moves_cursor(ms),
    ensures
        all_can_reset(ms, input),
        can_wrap_all(ms, t),
    decreases ms,
{
    if ms.len() > 0 {
        lemma_still_rows(ms.drop_first(), t, input);
        lemma_still_can_wrap(ms[0], t, input);
        lemma_still_can_wrap(ms[0], wrapped_all(ms.drop_first(), t), input);
    }
}

/// A modifier that holds no move of the cursor can be undone after any text, and can
/// be put round any text.
pub proof fn lemma_still_can_wrap(m: ModifierView, t: Seq<u8>, input: Option<Seq<u8>>)
    requires
        !m.moves_cursor(),
    ensures
        m.can_reset(input),
        m.can_wrap(t),
    decreases m,
{
    match m {
        ModifierView::Combo(ms) => lemma_still_rows(ms, t, input),
        _ => {},
    }
}

/// Two rows that hold no move of the cursor hold none when they are joined.
pub proof fn lemma_still_concat(a: Seq<ModifierView>, b: Seq<ModifierView>)
    requires
        !any_moves_cursor(a),
        !any_moves_cursor(b),
    ensures
        !any_moves_cursor(a + b),
    decreases a.len(),
{
    if a.len() == 0 {
        assert(a + b =~= b);
    } else {
        lemma_still_concat(a.drop_first(), b);
        assert((a + b).drop_first() =~= a.drop_first() + b);
        assert((a + b)[0] == a[0]);
    }
}

/// What a modifier without a move of the cursor brings into a row holds no move of
/// the cursor.
pub proof fn lemma_still_members(m: ModifierView)
    requires
        !m.moves_cursor(),
    ensures
        !any_moves_cursor(m.members()),
{
    match m {
        ModifierView::Combo(_) => {},
        ModifierView::Nothing => {},
        _ => {
            let row = seq![m];
            assert(row[0] == m);
            assert(row.drop_first() =~= Seq::<ModifierView>::empty());
            assert(!any_moves_cursor(row.drop_first()));
        },
    }
}

/// Two modifiers that hold no move of the cursor hold none when they are put in a
/// row.
pub proof fn lemma_still_combined(a: ModifierView, b: ModifierView)
    requires
        !a.moves_cursor(),
        !b.moves_cursor(),
    ensures
        !a.combined(b).moves_cursor(),
{
    if !(a is Nothing) && !(b is Nothing) {
        lemma_still_members(a);
        lemma_still_members(b);
        lemma_still_concat(a.members(), b.members());
    }
}


/// A row moves the cursor where one of its members does.
pub proof fn lemma_moves_inside(ms: Seq<ModifierView>, k: int)
    requires
        0 <= k < ms.len(),
        ms[k].moves_cursor(),
    ensures
        any_moves_cursor(ms),
    decreases k,
{
    if k > 0 {
        lemma_moves_inside(ms.drop_first(), k - 1);
        assert(ms.drop_first()[k - 1] == ms[k]);
    }
}


/// What undoes a row without a move of the cursor is the same after any text.
pub proof fn lemma_still_resets(ms: Seq<ModifierView>, a: Option<Seq<u8>>, b: Option<Seq<u8>>)
    requires
        !any_moves_cursor(ms),
    ensures
        resets(ms, a) == resets(ms, b),
    decreases ms,
{
    if ms.len() > 0 {
        lemma_still_resets(ms.drop_first(), a, b);
        lemma_still_reset(ms[0], a, b);
    }
}

/// What undoes a modifier without a move of the cursor is the same after any text.
pub proof fn lemma_still_reset(m: ModifierView, a: Option<Seq<u8>>, b: Option<Seq<u8>>)
    requires
        !m.moves_cursor(),
    ensures
        m.reset(a) == m.reset(b),
    decreases m,
{
    match m {
        ModifierView::Combo(ms) => lemma_still_resets(ms, a, b),
        _ => {},
    }
}

/// A text with a row put round it that holds no move of the cursor: what the members
/// write in their order, the text, and what undoes the members in the opposite order.
pub proof fn lemma_wrap_all_nests(ms: Seq<ModifierView>, t: Seq<u8>, input: Option<Seq<u8>>)
    requires
        !any_moves_cursor(ms),
    ensures
        wrapped_all(ms, t) == crate::modifier::texts(ms) + t + crate::modifier::texts(
            resets(ms, input),
        ),
    decreases ms,
{
    if ms.len() == 0 {
        assert(wrapped_all(ms, t) =~= crate::modifier::texts(ms) + t + crate::modifier::texts(
            resets(ms, input),
        ));
    } else {
        let tail = ms.drop_first();
        let inner = wrapped_all(tail, t);
        lemma_wrap_all_nests(tail, t, input);
        law_wrap_nests(ms[0], inner, input);
        let closing = resets(tail, input);
        crate::modifier::lemma_texts_concat(closing, seq![ms[0].reset(input)]);
        crate::modifier::lemma_texts_one(ms[0].reset(input));
        assert(closing.push(ms[0].reset(input)) =~= closing + seq![ms[0].reset(input)]);
        assert(ms[0].text() + (crate::modifier::texts(tail) + t + crate::modifier::texts(closing))
            + ms[0].reset(input).text() =~= (ms[0].text() + crate::modifier::texts(tail)) + t + (
        crate::modifier::texts(closing) + ms[0].reset(input).text()));
    }
}

/// Putting a modifier without a move of the cursor round a text gives what the
/// modifier writes, the text, and what the modifier that undoes it writes.  For a
/// row this means: what its members write in their order, the text once, and what
/// undoes the members in the opposite order.
pub proof fn law_wrap_nests(m: ModifierView, t: Seq<u8>, input: Option<Seq<u8>>)
    requires
        !m.moves_cursor(),
    ensures
        m.wrapped(t) == m.text() + t + m.reset(input).text(),
    decreases m,
{
    match m {
        ModifierView::Combo(ms) => {
            lemma_wrap_all_nests(ms, t, input);
        },
        ModifierView::Nothing => {
            assert(m.text() + t + m.reset(input).text() =~= t);
        },
        _ => {
            lemma_still_reset(m, Some(t), input);
        },
    }
}

} // verus!
