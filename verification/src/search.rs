//! Finding the modifiers inside a text, and measuring the text without them.

use vstd::prelude::*;
use vstd::string::StringSliceAdditionalSpecFns;
use crate::escape_code::{parsed_at, ANSIEscapeCode};
use crate::grammar::{lemma_match_end, match_end, scan_match};
use crate::measure::lemma_modifiers_fit;
use crate::modifier::{lens, views, Modifier, ModifierView};
use crate::text::byte_len;
use crate::traits::HasLength;

verus! {

/// The first control sequence that starts at `pos` or after it: where it starts and
/// where it ends.
pub open spec fn next_match(s: Seq<u8>, pos: int) -> Option<(int, int)>
    decreases s.len() - pos,
{
    if pos < 0 || pos >= s.len() {
        None
    } else if let Some(end) = match_end(s, pos) {
        Some((pos, end))
    } else {
        next_match(s, pos + 1)
    }
}

/// The sequence that [`next_match`] finds lies after `pos`, inside the text.
pub proof fn lemma_next_match(s: Seq<u8>, pos: int)
    requires
        next_match(s, pos) is Some,
    ensures
        next_match(s, pos) matches Some((start, end)) && 0 <= pos <= start && start + 4 <= end
            <= s.len() && match_end(s, start) == Some(end),
    decreases s.len() - pos,
{
    if match_end(s, pos) is Some {
        lemma_match_end(s, pos);
    } else {
        lemma_next_match(s, pos + 1);
    }
}

/// All control sequences from `pos` on, from left to right.  The search for the next
/// one goes on where the last one ended, so no two of them overlap.
pub open spec fn matches_from(s: Seq<u8>, pos: int) -> Seq<(int, int)>
    decreases s.len() - pos,
{
    match next_match(s, pos) {
        None => Seq::empty(),
        Some((start, end)) => {
            proof {
                lemma_next_match(s, pos);
            }
            seq![(start, end)] + matches_from(s, end)
        },
    }
}

/// What the control sequence that starts at `at` means, if it means anything.
pub open spec fn meaning(s: Seq<u8>, at: int) -> Option<ModifierView> {
    match parsed_at(s, at) {
        Ok(c) => match Modifier::decoded(c) {
            Ok(m) => Some(m@),
            Err(_) => None,
        },
        Err(_) => None,
    }
}

/// The modifiers from `pos` on, from left to right: what each control sequence
/// means, those left out that mean nothing.
pub open spec fn modifiers_from(s: Seq<u8>, pos: int) -> Seq<ModifierView>
    decreases s.len() - pos,
{
    match next_match(s, pos) {
        None => Seq::empty(),
        Some((start, end)) => {
            proof {
                lemma_next_match(s, pos);
            }
            match meaning(s, start) {
                Some(m) => seq![m] + modifiers_from(s, end),
                None => modifiers_from(s, end),
            }
        },
    }
}

/// The modifiers of a text.
pub open spec fn modifiers_in(s: Seq<u8>) -> Seq<ModifierView> {
    modifiers_from(s, 0)
}

/// The number of bytes of a text that belong to none of its modifiers: its length
/// less what each modifier takes up when written.  A control sequence that means
/// nothing counts as text.
pub open spec fn visible_len(s: Seq<u8>) -> int {
    s.len() - lens(modifiers_in(s))
}

/// A walk through the modifiers of a text, from left to right.
pub struct ModifiersInText<'t> {
    text: &'t str,
    pos: usize,
}

impl<'t> ModifiersInText<'t> {
    #[verifier::type_invariant]
    spec fn inside(&self) -> bool {
        self.pos <= self.text.spec_bytes().len()
    }

    /// The bytes of the text that is searched.
    pub closed spec fn bytes(&self) -> Seq<u8> {
        self.text.spec_bytes()
    }

    /// The place from which the search goes on.
    pub closed spec fn position(&self) -> int {
        self.pos as int
    }

    /// Starts at the beginning of `s`.
    pub fn new(s: &'t str) -> (r: Self)
        ensures
            r.bytes() == s.spec_bytes(),
            r.position() == 0,
    {
        ModifiersInText { text: s, pos: 0 }
    }

    /// Finds the next control sequence, whatever it means, and goes on after it.
    /// Returns where it starts and where it ends.
    pub fn next_match(&mut self) -> (r: Option<(usize, usize)>)
        ensures
            final(self).bytes() == old(self).bytes(),
            final(self).position() <= old(self).bytes().len(),
            match r {
                Some((start, end)) => {
                    &&& next_match(old(self).bytes(), old(self).position()) == Some(
                        (start as int, end as int),
                    )
                    &&& final(self).position() == end
                },
                None => {
                    &&& next_match(old(self).bytes(), old(self).position()) is None
                    &&& final(self).position() == old(self).bytes().len()
                },
            },
    {
        proof {
            use_type_invariant(&*self);
        }
        let bytes = self.text.as_bytes();
        let from = self.pos;
        let mut p = from;
        let mut found: Option<(usize, usize)> = None;
        while p < bytes.len() && found.is_none()
            invariant
                from <= p <= bytes.len(),
                match found {
                    Some((start, end)) => next_match(bytes@, from as int) == Some(
                        (start as int, end as int),
                    ) && p == end,
                    None => next_match(bytes@, from as int) == next_match(bytes@, p as int),
                },
            decreases bytes.len() - p + if found is None { 1int } else { 0int },
        {
            match scan_match(bytes, p) {
                Some(end) => {
                    found = Some((p, end));
                    p = end;
                },
                None => {
                    p = p + 1;
                },
            }
        }
        self.pos = p;
        found
    }

    /// Finds the next control sequence that means something, goes on after it and
    /// returns what it means.
    pub fn next(&mut self) -> (r: Option<Modifier>)
        ensures
            final(self).bytes() == old(self).bytes(),
            old(self).position() <= final(self).position() <= old(self).bytes().len(),
            modifiers_from(old(self).bytes(), old(self).position()) == match r {
                Some(m) => seq![m@] + modifiers_from(old(self).bytes(), final(self).position()),
                None => Seq::empty(),
            },
            r is None ==> final(self).position() == old(self).bytes().len(),
    {
        proof {
            use_type_invariant(&*self);
        }
        loop
            invariant
                self.bytes() == old(self).bytes(),
                old(self).position() <= self.position() <= self.bytes().len(),
                modifiers_from(self.bytes(), old(self).position()) == modifiers_from(
                    self.bytes(),
                    self.position(),
                ),
            decreases self.bytes().len() - self.position(),
        {
            proof {
                use_type_invariant(&*self);
            }
            let ghost before = self.position();
            match self.next_match() {
                None => {
                    return None;
                },
                Some((start, _end)) => {
                    proof {
                        lemma_next_match(self.bytes(), before);
                    }
                    let bytes = self.text.as_bytes();
                    if let Ok(code) = ANSIEscapeCode::parse_at(bytes, start) {
                        if let Ok(modifier) = Modifier::try_from(code) {
                            return Some(modifier);
                        }
                    }
                },
            }
        }
    }

    /// Walks to the end of the text and returns the modifiers met on the way.
    pub fn collect(self) -> (r: Vec<Modifier>)
        ensures
            views(r@) == modifiers_from(self.bytes(), self.position()),
    {
        proof {
            use_type_invariant(&self);
        }
        let mut walk = self;
        let mut found: Vec<Modifier> = Vec::new();
        assert(views(found@) =~= Seq::<ModifierView>::empty());
        loop
            invariant
                walk.bytes() == self.bytes(),
                0 <= walk.position() <= walk.bytes().len(),
                modifiers_from(self.bytes(), self.position()) == views(found@) + modifiers_from(
                    walk.bytes(),
                    walk.position(),
                ),
            decreases walk.bytes().len() - walk.position(),
        {
            proof {
                use_type_invariant(&walk);
            }
            let ghost before = walk.position();
            let ghost sofar = views(found@);
            match walk.next() {
                None => {
                    assert(sofar + Seq::<ModifierView>::empty() =~= sofar);
                    return found;
                },
                Some(modifier) => {
                    proof {
                        lemma_progress(walk.bytes(), before, walk.position());
                    }
                    let ghost view = modifier@;
                    found.push(modifier);
                    proof {
                        assert(views(found@) =~= sofar + seq![view]);
                        assert(sofar + (seq![view] + modifiers_from(walk.bytes(), walk.position()))
                            =~= views(found@) + modifiers_from(walk.bytes(), walk.position()));
                    }
                },
            }
        }
    }
}

/// Where the search has found a modifier, it has moved on.
pub proof fn lemma_progress(s: Seq<u8>, before: int, after: int)
    requires
        0 <= before <= after <= s.len(),
        modifiers_from(s, before).len() > modifiers_from(s, after).len(),
    ensures
        before < after,
{
}

/// For text in which modifiers can be searched.
pub trait FindModifiers {
    /// The bytes of the text.
    spec fn text_bytes(&self) -> Seq<u8>;

    /// Starts a walk through the modifiers of the text.
    fn iter_modifiers(&self) -> (r: ModifiersInText<'_>)
        ensures
            r.bytes() == self.text_bytes(),
            r.position() == 0,
    ;

    /// The number of bytes of the text.
    fn len(&self) -> (n: usize)
        ensures
            n == self.text_bytes().len(),
    ;
}

impl<'a> FindModifiers for &'a str {
    open spec fn text_bytes(&self) -> Seq<u8> {
        self.spec_bytes()
    }

    fn iter_modifiers(&self) -> (r: ModifiersInText<'_>) {
        ModifiersInText::new(*self)
    }

    fn len(&self) -> (n: usize) {
        byte_len(*self)
    }
}

impl FindModifiers for String {
    open spec fn text_bytes(&self) -> Seq<u8> {
        vstd::utf8::encode_utf8(self@)
    }

    fn iter_modifiers(&self) -> (r: ModifiersInText<'_>) {
        ModifiersInText::new(self.as_str())
    }

    fn len(&self) -> (n: usize) {
        byte_len(self.as_str())
    }
}

/// For text that can be measured without its modifiers.
pub trait LengthWithoutModifiers: FindModifiers {
    /// The number of bytes of the text that belong to none of its modifiers.
    /// Together with what the modifiers take up, this is the length of the text.
    fn len_without_modifiers(&self) -> (n: usize)
        ensures
            n == visible_len(self.text_bytes()),
            n + lens(modifiers_in(self.text_bytes())) == self.text_bytes().len(),
    ;
}

impl<T: FindModifiers> LengthWithoutModifiers for T {
    fn len_without_modifiers(&self) -> (n: usize) {
        let total = self.len();
        let mut walk = self.iter_modifiers();
        let ghost s = self.text_bytes();
        let mut count: usize = 0;
        proof {
            lemma_modifiers_fit(s, 0);
        }
        loop
            invariant
                walk.bytes() == s,
                s == self.text_bytes(),
                total == s.len(),
                0 <= walk.position() <= s.len(),
                lens(modifiers_in(s)) <= s.len(),
                count + lens(modifiers_from(s, walk.position())) == lens(modifiers_in(s)),
            decreases s.len() - walk.position(),
        {
            let ghost before = walk.position();
            match walk.next() {
                None => {
                    proof {
                        assert(modifiers_from(s, before) =~= Seq::<ModifierView>::empty());
                        assert(lens(modifiers_from(s, before)) == 0);
                    }
                    return total - count;
                },
                Some(modifier) => {
                    proof {
                        let rest = modifiers_from(s, walk.position());
                        let all = seq![modifier@] + rest;
                        assert(all.drop_first() =~= rest);
                        assert(all[0] == modifier@);
                        lemma_progress(s, before, walk.position());
                    }
                    count = count + modifier.len();
                },
            }
        }
    }
}

} // verus!
