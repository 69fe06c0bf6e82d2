//! Places in a text counted with and without the control sequences in it.

use core::ops::Range;
use vstd::prelude::*;
use vstd::string::StringSliceAdditionalSpecFns;
use crate::search::{lemma_next_match, matches_from, next_match, ModifiersInText};

verus! {

/// The ranges of `v` with their bounds as integers.
pub open spec fn spans(v: Seq<(usize, usize)>) -> Seq<(int, int)> {
    Seq::new(v.len(), |k: int| (v[k].0 as int, v[k].1 as int))
}

/// How many of the bytes before `idx` lie in `range`.  A range that starts at `idx`
/// or after it has none; one that `idx` lies inside counts up to `idx`.
pub open spec fn overlap(range: (int, int), idx: int) -> int {
    if range.0 >= idx {
        0
    } else if idx < range.1 {
        idx - range.0
    } else {
        range.1 - range.0
    }
}

/// How many of the bytes before `idx` lie in one of `ranges`.
pub open spec fn covered(ranges: Seq<(int, int)>, idx: int) -> int
    decreases ranges.len(),
{
    if ranges.len() == 0 {
        0
    } else {
        overlap(ranges[0], idx) + covered(ranges.drop_first(), idx)
    }
}

/// What lies in two rows of ranges is what lies in the one and in the other.
pub proof fn lemma_covered_concat(a: Seq<(int, int)>, b: Seq<(int, int)>, idx: int)
    ensures
        covered(a + b, idx) == covered(a, idx) + covered(b, idx),
    decreases a.len(),
{
    if a.len() == 0 {
        assert(a + b =~= b);
    } else {
        lemma_covered_concat(a.drop_first(), b, idx);
        assert((a + b).drop_first() =~= a.drop_first() + b);
        assert((a + b)[0] == a[0]);
    }
}

/// The control sequences from `pos` on lie after `pos` and apart from each other, so
/// that no more bytes are covered before `idx` than lie between `pos` and `idx`.
pub proof fn lemma_covered_bound(s: Seq<u8>, pos: int, idx: int)
    requires
        0 <= pos <= s.len(),
        0 <= idx,
    ensures
        0 <= covered(matches_from(s, pos), idx),
        covered(matches_from(s, pos), idx) <= if idx > pos {
            idx - pos
        } else {
            0
        },
    decreases s.len() - pos,
{
    if let Some((start, end)) = next_match(s, pos) {
        lemma_next_match(s, pos);
        lemma_covered_bound(s, end, idx);
        let all = matches_from(s, pos);
        assert(all.drop_first() =~= matches_from(s, end));
        assert(all[0] == (start, end));
    }
}

/// True when the ranges stand one after the other from `from` on, none empty and
/// none reaching into the next.
pub open spec fn in_order(ranges: Seq<(int, int)>, from: int) -> bool
    decreases ranges.len(),
{
    ranges.len() == 0 || (from <= ranges[0].0 < ranges[0].1 && in_order(
        ranges.drop_first(),
        ranges[0].1,
    ))
}

/// The place of the text at which the place `idx` stands that was counted without
/// the ranges: `idx` and the length of every range that starts before it, the
/// earlier ranges counted in.
pub open spec fn uncovered(ranges: Seq<(int, int)>, idx: int) -> int
    decreases ranges.len(),
{
    if ranges.len() == 0 || ranges[0].0 >= idx {
        idx
    } else {
        uncovered(ranges.drop_first(), idx + (ranges[0].1 - ranges[0].0))
    }
}

/// True when `idx` lies inside one of the ranges or at its end.
pub open spec fn inside(ranges: Seq<(int, int)>, idx: int) -> bool {
    exists|k: int| 0 <= k < ranges.len() && (#[trigger] ranges[k]).0 < idx <= ranges[k].1
}

/// The control sequences of a text stand one after the other.
pub proof fn lemma_matches_in_order(s: Seq<u8>, pos: int)
    requires
        0 <= pos <= s.len(),
    ensures
        in_order(matches_from(s, pos), pos),
    decreases s.len() - pos,
{
    if let Some((start, end)) = next_match(s, pos) {
        lemma_next_match(s, pos);
        lemma_matches_in_order(s, end);
        let all = matches_from(s, pos);
        assert(all.drop_first() =~= matches_from(s, end));
        assert(all[0] == (start, end));
    }
}

/// Counting the ranges in never gives an earlier place.
pub proof fn lemma_uncovered_grows(ranges: Seq<(int, int)>, idx: int)
    requires
        forall|k: int| 0 <= k < ranges.len() ==> (#[trigger] ranges[k]).0 <= ranges[k].1,
    ensures
        idx <= uncovered(ranges, idx),
    decreases ranges.len(),
{
    if ranges.len() > 0 && ranges[0].0 < idx {
        let tail = ranges.drop_first();
        assert forall|k: int| 0 <= k < tail.len() implies (#[trigger] tail[k]).0 <= tail[k].1 by {
            assert(tail[k] == ranges[k + 1]);
        }
        lemma_uncovered_grows(tail, idx + (ranges[0].1 - ranges[0].0));
    }
}

/// Ranges that stand in order start before they end.
pub proof fn lemma_in_order_bounds(ranges: Seq<(int, int)>, from: int)
    requires
        in_order(ranges, from),
    ensures
        forall|k: int| 0 <= k < ranges.len() ==> from <= (#[trigger] ranges[k]).0 < ranges[k].1,
    decreases ranges.len(),
{
    if ranges.len() > 0 {
        let tail = ranges.drop_first();
        lemma_in_order_bounds(tail, ranges[0].1);
        assert forall|k: int| 0 <= k < ranges.len() implies from <= (#[trigger] ranges[k]).0
            < ranges[k].1 by {
            if k > 0 {
                assert(tail[k - 1] == ranges[k]);
            }
        }
    }
}

/// Before the first of the ranges nothing is covered, and further on no more than
/// lies after where the ranges start.
pub proof fn lemma_covered_in_order(ranges: Seq<(int, int)>, from: int, idx: int)
    requires
        in_order(ranges, from),
    ensures
        0 <= covered(ranges, idx),
        idx <= from ==> covered(ranges, idx) == 0,
        idx >= from ==> covered(ranges, idx) <= idx - from,
        idx > from && !inside(ranges, idx) ==> covered(ranges, idx) < idx - from,
    decreases ranges.len(),
{
    if ranges.len() > 0 {
        let tail = ranges.drop_first();
        lemma_covered_in_order(tail, ranges[0].1, idx);
        if inside(tail, idx) {
            let k = choose|k: int| 0 <= k < tail.len() && (#[trigger] tail[k]).0 < idx <= tail[k].1;
            assert(ranges[k + 1] == tail[k]);
        }
        if !inside(ranges, idx) {
            assert(!(ranges[0].0 < idx <= ranges[0].1));
        }
    }
}

/// Counting the ranges in and then out again gives the place from which the counting
/// started.
pub proof fn law_with_then_without(ranges: Seq<(int, int)>, from: int, idx: int)
    requires
        in_order(ranges, from),
    ensures
        uncovered(ranges, idx) - covered(ranges, uncovered(ranges, idx)) == idx,
        !inside(ranges, uncovered(ranges, idx)),
    decreases ranges.len(),
{
    if ranges.len() == 0 || ranges[0].0 >= idx {
        lemma_in_order_bounds(ranges, from);
        if ranges.len() > 0 {
            lemma_in_order_from(ranges, from, if idx >= from { from } else { idx });
            lemma_covered_in_order(ranges, ranges[0].0, idx);
            if inside(ranges, idx) {
                let k = choose|k: int| 0 <= k < ranges.len() && (#[trigger] ranges[k]).0 < idx
                    <= ranges[k].1;
                lemma_in_order_bounds(ranges, ranges[0].0);
            }
        }
    } else {
        let tail = ranges.drop_first();
        let len = ranges[0].1 - ranges[0].0;
        let raw = uncovered(tail, idx + len);
        law_with_then_without(tail, ranges[0].1, idx + len);
        lemma_in_order_bounds(tail, ranges[0].1);
        lemma_uncovered_grows(tail, idx + len);
        if inside(ranges, raw) {
            let k = choose|k: int| 0 <= k < ranges.len() && (#[trigger] ranges[k]).0 < raw
                <= ranges[k].1;
            if k > 0 {
                assert(tail[k - 1] == ranges[k]);
            }
        }
    }
}

/// Ranges that stand in order from a place on stand in order from any place up to
/// where the first of them starts.
pub proof fn lemma_in_order_from(ranges: Seq<(int, int)>, from: int, other: int)
    requires
        in_order(ranges, from),
        ranges.len() == 0 || other <= ranges[0].0,
    ensures
        in_order(ranges, other),
{
}

/// Counting the ranges out and then in again gives back a place that lies neither
/// inside a range nor at the end of one.  Any other place comes back as a place not
/// after it.
pub proof fn law_without_then_with(ranges: Seq<(int, int)>, from: int, idx: int)
    requires
        in_order(ranges, from),
        from <= idx,
    ensures
        uncovered(ranges, idx - covered(ranges, idx)) <= idx,
        !inside(ranges, idx) ==> uncovered(ranges, idx - covered(ranges, idx)) == idx,
    decreases ranges.len(),
{
    lemma_covered_in_order(ranges, from, idx);
    if ranges.len() > 0 {
        let tail = ranges.drop_first();
        let (start, end) = ranges[0];
        let plain = idx - covered(ranges, idx);
        lemma_covered_in_order(tail, end, idx);
        if start < plain {
            // The first range lies before the place: the place lies after its end.
            assert(idx > end);
            law_without_then_with(tail, end, idx);
            if inside(tail, idx) {
                let k = choose|k: int| 0 <= k < tail.len() && (#[trigger] tail[k]).0 < idx
                    <= tail[k].1;
                assert(ranges[k + 1] == tail[k]);
            }
        } else if !inside(ranges, idx) {
            if start < idx {
                assert(!(ranges[0].0 < idx <= ranges[0].1));
                if inside(tail, idx) {
                    let k = choose|k: int| 0 <= k < tail.len() && (#[trigger] tail[k]).0 < idx
                        <= tail[k].1;
                    assert(ranges[k + 1] == tail[k]);
                }
            }
        }
    }
}

/// A text with the places of its control sequences, to turn a place counted with
/// them into a place counted without them, and back.
pub struct RangeWithoutModifiers<'t> {
    text: &'t str,
    modifier_ranges: Vec<(usize, usize)>,
}

impl<'t> RangeWithoutModifiers<'t> {
    #[verifier::type_invariant]
    spec fn complete(&self) -> bool {
        spans(self.modifier_ranges@) == matches_from(self.text.spec_bytes(), 0)
    }

    /// The bytes of the text.
    pub closed spec fn bytes(&self) -> Seq<u8> {
        self.text.spec_bytes()
    }

    /// Where each control sequence of the text starts and ends, whether it means
    /// anything or not.
    pub closed spec fn ranges(&self) -> Seq<(int, int)> {
        spans(self.modifier_ranges@)
    }

    /// Finds the control sequences of `text`.
    pub fn new(text: &'t str) -> (r: Self)
        ensures
            r.bytes() == text.spec_bytes(),
            r.ranges() == matches_from(text.spec_bytes(), 0),
    {
        let mut found: Vec<(usize, usize)> = Vec::new();
        let mut walk = ModifiersInText::new(text);
        let ghost s = text.spec_bytes();
        assert(spans(found@) =~= Seq::<(int, int)>::empty());
        loop
            invariant
                walk.bytes() == s,
                s == text.spec_bytes(),
                0 <= walk.position() <= s.len(),
                matches_from(s, 0) == spans(found@) + matches_from(s, walk.position()),
            decreases s.len() - walk.position(),
        {
            let ghost before = walk.position();
            let ghost sofar = spans(found@);
            match walk.next_match() {
                Some((start, end)) => {
                    proof {
                        lemma_next_match(s, before);
                    }
                    found.push((start, end));
                    proof {
                        assert(spans(found@) =~= sofar + seq![(start as int, end as int)]);
                        assert(sofar + (seq![(start as int, end as int)] + matches_from(
                            s,
                            end as int,
                        )) =~= spans(found@) + matches_from(s, end as int));
                    }
                },
                None => {
                    proof {
                        assert(sofar + Seq::<(int, int)>::empty() =~= sofar);
                    }
                    return RangeWithoutModifiers { text, modifier_ranges: found };
                },
            }
        }
    }

    /// Counts the bytes before `idx` that lie in a control sequence.
    fn covered_before(&self, idx: usize) -> (n: usize)
        ensures
            n == covered(self.ranges(), idx as int),
            n <= idx,
    {
        proof {
            use_type_invariant(self);
            lemma_covered_bound(self.text.spec_bytes(), 0, idx as int);
        }
        let ghost all = spans(self.modifier_ranges@);
        let ghost s = self.text.spec_bytes();
        let mut n: usize = 0;
        let mut k: usize = 0;
        assert(all.subrange(0, 0) =~= Seq::<(int, int)>::empty());
        while k < self.modifier_ranges.len()
            invariant
                k <= self.modifier_ranges.len(),
                all == spans(self.modifier_ranges@),
                all == matches_from(s, 0),
                n == covered(all.subrange(0, k as int), idx as int),
                covered(all, idx as int) <= idx,
            decreases self.modifier_ranges.len() - k,
        {
            let (start, end) = self.modifier_ranges[k];
            proof {
                let done = all.subrange(0, k as int);
                let one = seq![all[k as int]];
                let next = all.subrange(k + 1, all.len() as int);
                assert(all[k as int] == (start as int, end as int));
                lemma_tail_covered(s, all, k as int, idx as int);
                assert(done + one =~= all.subrange(0, k + 1));
                assert(all.subrange(0, k + 1) + next =~= all);
                lemma_covered_concat(done, one, idx as int);
                lemma_covered_concat(all.subrange(0, k + 1), next, idx as int);
                assert(one.drop_first() =~= Seq::<(int, int)>::empty());
                assert(covered(one.drop_first(), idx as int) == 0);
                assert(one[0] == all[k as int]);
                assert(covered(one, idx as int) == overlap(all[k as int], idx as int));
            }
            if start < idx {
                let upto = if idx < end {
                    idx
                } else {
                    end
                };
                n = n + (upto - start);
            }
            k = k + 1;
        }
        proof {
            assert(all.subrange(0, k as int) =~= all);
        }
        n
    }

    /// The place `idx` of the text, counted without the control sequences before it.
    /// A place inside a control sequence counts as the place where that sequence
    /// starts.
    pub fn index_without_modifiers(&self, idx: usize) -> (r: usize)
        ensures
            r == idx - covered(self.ranges(), idx as int),
    {
        idx - self.covered_before(idx)
    }

    /// The place of the text at which the place `idx` stands that was counted without
    /// the control sequences: `idx` and the bytes of every control sequence that
    /// starts before it.  Of the places of the text that count the same, this is the
    /// first, before the control sequences that stand there.
    pub fn index_with_modifiers(&self, idx: usize) -> (r: usize)
        requires
            uncovered(self.ranges(), idx as int) <= usize::MAX,
        ensures
            r == uncovered(self.ranges(), idx as int),
    {
        proof {
            use_type_invariant(self);
            lemma_matches_in_order(self.text.spec_bytes(), 0);
        }
        let ghost all = spans(self.modifier_ranges@);
        let mut raw = idx;
        let mut k: usize = 0;
        proof {
            assert(all.subrange(0, all.len() as int) =~= all);
            lemma_in_order_bounds(all, 0);
        }
        while k < self.modifier_ranges.len()
            invariant
                k <= self.modifier_ranges.len(),
                all == spans(self.modifier_ranges@),
                forall|j: int| 0 <= j < all.len() ==> (#[trigger] all[j]).0 < all[j].1,
                uncovered(all, idx as int) <= usize::MAX,
                uncovered(all, idx as int) == uncovered(
                    all.subrange(k as int, all.len() as int),
                    raw as int,
                ),
            decreases self.modifier_ranges.len() - k,
        {
            let (start, end) = self.modifier_ranges[k];
            proof {
                let rest = all.subrange(k as int, all.len() as int);
                assert(rest[0] == (start as int, end as int));
                let tail = all.subrange(k + 1, all.len() as int);
                assert(rest.drop_first() =~= tail);
                assert forall|j: int| 0 <= j < tail.len() implies (#[trigger] tail[j]).0
                    <= tail[j].1 by {
                    assert(tail[j] == all[k + 1 + j]);
                }
                assert(all[k as int].0 < all[k as int].1);
                lemma_uncovered_grows(tail, raw + (end - start));
            }
            if start >= raw {
                return raw;
            }
            raw = raw + (end - start);
            k = k + 1;
        }
        raw
    }

    /// Both ends of `range` as [`Self::index_without_modifiers`] counts them.
    pub fn range_without_modifiers(&self, range: Range<usize>) -> (r: Range<usize>)
        ensures
            r.start == range.start - covered(self.ranges(), range.start as int),
            r.end == range.end - covered(self.ranges(), range.end as int),
    {
        self.index_without_modifiers(range.start)..self.index_without_modifiers(range.end)
    }

    /// Both ends of `range` as [`Self::index_with_modifiers`] counts them.
    pub fn range_with_modifiers(&self, range: Range<usize>) -> (r: Range<usize>)
        requires
            uncovered(self.ranges(), range.start as int) <= usize::MAX,
            uncovered(self.ranges(), range.end as int) <= usize::MAX,
        ensures
            r.start == uncovered(self.ranges(), range.start as int),
            r.end == uncovered(self.ranges(), range.end as int),
    {
        self.index_with_modifiers(range.start)..self.index_with_modifiers(range.end)
    }
}

/// Every control sequence of a text starts before it ends, and what is covered by
/// those from the `k`-th on is not negative.
pub proof fn lemma_tail_covered(s: Seq<u8>, all: Seq<(int, int)>, k: int, idx: int)
    requires
        all == matches_from(s, 0),
        0 <= k < all.len(),
        0 <= idx,
    ensures
        0 <= all[k].0 < all[k].1 <= s.len(),
        0 <= covered(all.subrange(k + 1, all.len() as int), idx),
{
    lemma_tail_from(s, 0, k, idx);
}

/// The same for the control sequences from `pos` on.
pub proof fn lemma_tail_from(s: Seq<u8>, pos: int, k: int, idx: int)
    requires
        0 <= pos <= s.len(),
        0 <= k < matches_from(s, pos).len(),
        0 <= idx,
    ensures
        pos <= matches_from(s, pos)[k].0 < matches_from(s, pos)[k].1 <= s.len(),
        0 <= covered(
            matches_from(s, pos).subrange(k + 1, matches_from(s, pos).len() as int),
            idx,
        ),
    decreases k,
{
    let all = matches_from(s, pos);
    lemma_next_match(s, pos);
    let (start, end) = next_match(s, pos)->0;
    let rest = matches_from(s, end);
    assert(all =~= seq![(start, end)] + rest);
    if k == 0 {
        lemma_covered_bound(s, end, idx);
        assert(all.subrange(1, all.len() as int) =~= rest);
    } else {
        lemma_tail_from(s, end, k - 1, idx);
        assert(all[k] == rest[k - 1]);
        assert(all.subrange(k + 1, all.len() as int) =~= rest.subrange(k, rest.len() as int));
    }
}

} // verus!
