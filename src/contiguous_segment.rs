//! A one-dimensional extent cut into gap-free, ordered segments, each carrying a value.
//!
//! Lengths and positions are integer ticks: a caller picks the unit (milliseconds,
//! thousandths of a metre) and every sum is exact. A segment covers the half-open span
//! `[alignment, alignment + length)`, so a position on a boundary belongs to the segment
//! that starts there.

use crate::segment_model::{
    contiguous, covers, end_at, extent, head_until, index_at, lemma_chain_order, lemma_chain_push,
    lemma_chain_take, lemma_covers_is_partition_point, lemma_index_past_end,
    lemma_partition_point, lemma_reach_is_sum, lemma_same_layout, lemma_reach_take, lemma_same_but_clone_refl,
    lemma_splice, lemma_sum_concat, lemma_sum_single, lemma_within_reach, merged, overwritten,
    pieces, range_end, range_start, same_but_clone_at, split_pieces, start_at, sum_lengths,
    without_empty,
};
use crate::anyvec::{AnyVec, AnyVecMut};
use std::marker::PhantomData;
use vstd::prelude::*;
use vstd::std_specs::cmp::PartialEqSpec;

verus! {

/// A value with a length, not yet placed in a [`ContiguousSegments`].
#[derive(Debug)]
pub struct Segment<T> {
    length: u64,
    value: T,
}

impl<T> View for Segment<T> {
    /// The length and the value.
    type V = (nat, T);

    closed spec fn view(&self) -> (nat, T) {
        (self.length as nat, self.value)
    }
}

impl<T> Segment<T> {
    pub fn into_inner(self) -> (r: T)
        ensures
            r == self@.1,
    {
        self.value
    }

    pub fn new(value: T, length: u64) -> (r: Self)
        ensures
            r@ == (length as nat, value),
    {
        Segment { length, value }
    }

    pub fn segment_length(&self) -> (r: u64)
        ensures
            r == self@.0,
    {
        self.length
    }

    pub fn segment_value(&self) -> (r: &T)
        ensures
            *r == self@.1,
    {
        &self.value
    }

    pub fn segment_value_mut(&mut self) -> (r: &mut T)
        ensures
            *r == old(self)@.1,
            final(self)@ == (old(self)@.0, *final(r)),
    {
        &mut self.value
    }
}

impl<T: Clone> Clone for Segment<T> {
    fn clone(&self) -> (r: Self)
        ensures
            r@.0 == self@.0,
            cloned(self@.1, r@.1),
    {
        Segment { length: self.length, value: self.value.clone() }
    }
}

/// A segment placed in a [`ContiguousSegments`]: besides its length and value it keeps the
/// offset at which it starts along the whole.
#[derive(Debug)]
pub struct AlignedSegment<T> {
    alignment: u64,
    length: u64,
    value: T,
}

impl<T> AlignedSegment<T> {
    /// Where the segment starts along the whole.
    pub closed spec fn spec_alignment(&self) -> nat {
        self.alignment as nat
    }

    pub closed spec fn spec_length(&self) -> nat {
        self.length as nat
    }

    pub closed spec fn spec_value(&self) -> T {
        self.value
    }

    pub fn segment_alignment(&self) -> (r: u64)
        ensures
            r == self.spec_alignment(),
    {
        self.alignment
    }

    pub fn segment_length(&self) -> (r: u64)
        ensures
            r == self.spec_length(),
    {
        self.length
    }

    pub fn segment_value(&self) -> (r: &T)
        ensures
            *r == self.spec_value(),
    {
        &self.value
    }

    /// The value may change; the alignment and the length stay.
    pub fn segment_value_mut(&mut self) -> (r: &mut T)
        ensures
            *r == old(self).spec_value(),
            final(self).spec_alignment() == old(self).spec_alignment(),
            final(self).spec_length() == old(self).spec_length(),
            final(self).spec_value() == *final(r),
    {
        &mut self.value
    }
}

impl<T: Clone> Clone for AlignedSegment<T> {
    fn clone(&self) -> (r: Self)
        ensures
            r.spec_alignment() == self.spec_alignment(),
            r.spec_length() == self.spec_length(),
            cloned(self.spec_value(), r.spec_value()),
    {
        AlignedSegment { alignment: self.alignment, length: self.length, value: self.value.clone() }
    }
}

/// A segment found by a lookup, with its index in the collection.
#[derive(Debug)]
pub struct IndexedSegment<'a, T> {
    pub index: usize,
    pub segment: &'a AlignedSegment<T>,
}

impl<'a, T> IndexedSegment<'a, T> {
    pub fn segment_index(&self) -> (r: usize)
        ensures
            r == self.index,
    {
        self.index
    }

    pub fn segment_value(&self) -> (r: &T)
        ensures
            *r == self.segment.spec_value(),
    {
        &self.segment.value
    }
}

/// A segment found by a lookup, with its index, whose value may be changed. Its length and
/// alignment stay out of reach: they belong to the collection.
#[derive(Debug)]
pub struct IndexedSegmentMut<'a, T> {
    pub index: usize,
    pub value: &'a mut T,
}

impl<'a, T> IndexedSegmentMut<'a, T> {
    pub fn index(&self) -> (r: usize)
        ensures
            r == self.index,
    {
        self.index
    }

    pub fn segment_value(&self) -> (r: &T)
        ensures
            *r == *old(self.value),
    {
        &*self.value
    }

    pub fn segment_value_mut(&mut self) -> (r: &mut T)
        ensures
            *r == *old(self).value,
            final(self).index == old(self).index,
            *final(final(self).value) == *final(old(self).value),
            *final(self).value == *final(r),
    {
        &mut *self.value
    }
}

/// `v` in reverse order.
fn reversed<X>(v: Vec<X>) -> (r: Vec<X>)
    ensures
        r@.len() == v@.len(),
        forall|i: int| 0 <= i < v@.len() ==> #[trigger] r@[i] == v@[v@.len() - 1 - i],
{
    let ghost v0 = v@;
    let mut v = v;
    let mut r: Vec<X> = Vec::new();
    while v.len() > 0
        invariant
            r@.len() + v@.len() == v0.len(),
            v@ == v0.take(v@.len() as int),
            forall|i: int| 0 <= i < r@.len() ==> #[trigger] r@[i] == v0[v0.len() - 1 - i],
        decreases v@.len(),
    {
        match v.pop() {
            Some(x) => {
                r.push(x);
            },
            None => {},
        }
    }
    r
}

/// An ordered, gap-free sequence of segments covering `[0, total_length)`, kept in any store
/// with the capabilities of [`AnyVecMut`], a `Vec` by default.
#[derive(Debug)]
pub struct ContiguousSegments<T, C: AnyVecMut<AlignedSegment<T>> = Vec<AlignedSegment<T>>> {
    segments: C,
    total_length: u64,
    phantom: PhantomData<T>,
}

impl<T, C: AnyVecMut<AlignedSegment<T>>> ContiguousSegments<T, C> {
    /// The stored segments, alignments included.
    pub closed spec fn aligned(&self) -> Seq<AlignedSegment<T>> {
        self.segments@
    }

    /// The cached length of the whole.
    pub closed spec fn spec_total(&self) -> nat {
        self.total_length as nat
    }

    /// The (length, value) pairs, in order.
    pub open spec fn spans(&self) -> Seq<(nat, T)> {
        pieces(self.aligned())
    }

    /// Each alignment is where the previous segment ends, the first is zero, and the cached
    /// total is where the last one ends.
    pub open spec fn wf(&self) -> bool {
        &&& contiguous(self.aligned())
        &&& self.spec_total() == extent(self.aligned())
    }

    proof fn lemma_end_fits(&self, i: int)
        requires
            self.wf(),
            0 <= i < self.aligned().len(),
        ensures
            end_at(self.aligned(), i) <= self.spec_total(),
            start_at(self.aligned(), i) <= end_at(self.aligned(), i),
    {
        lemma_within_reach(self.aligned(), 0, i);
    }

    pub fn new() -> (r: Self)
        ensures
            r.wf(),
            r.spans() == Seq::<(nat, T)>::empty(),
            r.spec_total() == 0,
    {
        let r = ContiguousSegments { segments: C::new(), total_length: 0, phantom: PhantomData };
        assert(r.spans() =~= Seq::<(nat, T)>::empty());
        r
    }

    /// Returns the amount of segments which make up the whole.
    pub fn count(&self) -> (r: usize)
        ensures
            r == self.spans().len(),
    {
        self.segments.len()
    }

    pub fn from_segment(segment: Segment<T>) -> (r: Self)
        ensures
            r.wf(),
            r.spans() == seq![segment@],
            r.spec_total() == segment@.0,
    {
        let mut segments = C::new();
        let total_length = segment.length;
        segments.push(AlignedSegment { alignment: 0, length: segment.length, value: segment.value });
        let r = ContiguousSegments { segments, total_length, phantom: PhantomData };
        assert(r.spans() =~= seq![segment@]);
        r
    }

    pub fn get(&self, index: usize) -> (r: Option<IndexedSegment<'_, T>>)
        ensures
            index < self.aligned().len() ==> (r matches Some(h) && h.index == index && *h.segment
                == self.aligned()[index as int]),
            index >= self.aligned().len() ==> r is None,
    {
        if index < self.segments.len() {
            Some(IndexedSegment { index, segment: self.segments.at(index) })
        } else {
            None
        }
    }

    /// The length at which the segment of the given index starts in the whole.
    pub fn get_alignment(&self, index: usize) -> (r: Option<u64>)
        ensures
            index < self.aligned().len() ==> r == Some(start_at(self.aligned(), index as int) as u64),
            index >= self.aligned().len() ==> r is None,
    {
        if index < self.segments.len() {
            Some(self.segments.at(index).alignment)
        } else {
            None
        }
    }

    pub fn get_mut(&mut self, index: usize) -> (r: Option<IndexedSegmentMut<'_, T>>)
        ensures
            index < old(self).aligned().len() ==> (r matches Some(h) && h.index == index && *h.value
                == old(self).spans()[index as int].1 && final(self).spec_total() == old(
                self,
            ).spec_total() && final(self).aligned().len() == old(self).aligned().len() && (forall|
                j: int,
            |
                0 <= j < old(self).aligned().len() ==> #[trigger] final(self).aligned()[j].spec_alignment()
                    == old(self).aligned()[j].spec_alignment()) && final(self).spans() == old(
                self,
            ).spans().update(index as int, (old(self).spans()[index as int].0, *final(h.value)))),
            index >= old(self).aligned().len() ==> r is None && *final(self) == *old(self),
    {
        if index < self.segments.len() {
            Some(IndexedSegmentMut { index, value: &mut self.segments.at_mut(index).value })
        } else {
            None
        }
    }

    /// The index of the first segment that ends after `length`: the segment covering
    /// `length`, or the count of segments when `length` is at or past the end.
    pub fn partition_point(&self, length: u64) -> (r: usize)
        requires
            self.wf(),
        ensures
            r == index_at(self.aligned(), length as int),
            r <= self.aligned().len(),
            r < self.aligned().len() <==> length < self.spec_total(),
            r < self.aligned().len() ==> covers(self.aligned(), r as int, length as int),
    {
        let ghost s = self.aligned();
        let mut lo: usize = 0;
        let mut hi: usize = self.segments.len();
        while lo < hi
            invariant
                self.wf(),
                s == self.aligned(),
                0 <= lo <= hi <= s.len(),
                forall|j: int| 0 <= j < lo ==> #[trigger] end_at(s, j) <= length,
                forall|j: int| hi <= j < s.len() ==> length < #[trigger] end_at(s, j),
            decreases hi - lo,
        {
            let mid = lo + (hi - lo) / 2;
            proof {
                self.lemma_end_fits(mid as int);
            }
            if self.segments.at(mid).alignment + self.segments.at(mid).length <= length {
                assert forall|j: int| 0 <= j < mid + 1 implies #[trigger] end_at(s, j) <= length by {
                    if j < mid {
                        lemma_chain_order(s, 0, j, mid as int);
                        self.lemma_end_fits(mid as int);
                    }
                }
                lo = mid + 1;
            } else {
                assert forall|j: int| mid <= j < s.len() implies length < #[trigger] end_at(s, j) by {
                    if mid < j {
                        lemma_chain_order(s, 0, mid as int, j);
                        self.lemma_end_fits(j);
                    }
                }
                hi = mid;
            }
        }
        proof {
            lemma_partition_point(s, length as int, lo as int);
        }
        lo
    }

    /// The segment covering the given length along the whole.
    pub fn get_at(&self, length: u64) -> (r: Option<IndexedSegment<'_, T>>)
        requires
            self.wf(),
        ensures
            length < self.spec_total() ==> (r matches Some(h) && covers(
                self.aligned(),
                h.index as int,
                length as int,
            ) && *h.segment == self.aligned()[h.index as int]),
            length >= self.spec_total() ==> r is None,
    {
        let p = self.partition_point(length);
        self.get(p)
    }

    /// The alignment of the segment covering the given length along the whole.
    pub fn get_alignment_at(&self, length: u64) -> (r: Option<u64>)
        requires
            self.wf(),
        ensures
            length < self.spec_total() ==> r == Some(
                start_at(self.aligned(), index_at(self.aligned(), length as int)) as u64,
            ),
            length >= self.spec_total() ==> r is None,
    {
        let p = self.partition_point(length);
        self.get_alignment(p)
    }

    /// The index and the alignment of the segment covering the given length along the whole.
    pub fn get_ia_at(&self, length: u64) -> (r: Option<(usize, u64)>)
        requires
            self.wf(),
        ensures
            length < self.spec_total() ==> (r matches Some((i, a)) && covers(
                self.aligned(),
                i as int,
                length as int,
            ) && a == start_at(self.aligned(), i as int)),
            length >= self.spec_total() ==> r is None,
    {
        let p = self.partition_point(length);
        if p < self.segments.len() {
            Some((p, self.segments.at(p).alignment))
        } else {
            None
        }
    }

    /// The index of the segment covering the given length along the whole; `None` at or past
    /// the end.
    pub fn get_index_at(&self, length: u64) -> (r: Option<usize>)
        requires
            self.wf(),
        ensures
            length < self.spec_total() ==> (r matches Some(i) && covers(
                self.aligned(),
                i as int,
                length as int,
            )),
            length >= self.spec_total() ==> r is None,
    {
        let p = self.partition_point(length);
        if p < self.count() {
            Some(p)
        } else {
            None
        }
    }

    /// The segment covering the given length along the whole, with its value open to change.
    pub fn get_mut_at(&mut self, length: u64) -> (r: Option<IndexedSegmentMut<'_, T>>)
        requires
            old(self).wf(),
        ensures
            length < old(self).spec_total() ==> (r matches Some(h) && covers(
                old(self).aligned(),
                h.index as int,
                length as int,
            ) && *h.value == old(self).spans()[h.index as int].1 && final(self).spec_total() == old(
                self,
            ).spec_total() && final(self).aligned().len() == old(self).aligned().len() && (forall|
                j: int,
            |
                0 <= j < old(self).aligned().len() ==> #[trigger] final(self).aligned()[j].spec_alignment()
                    == old(self).aligned()[j].spec_alignment()) && final(self).spans() == old(
                self,
            ).spans().update(h.index as int, (old(self).spans()[h.index as int].0, *final(h.value)))),
            length >= old(self).spec_total() ==> r is None && *final(self) == *old(self),
    {
        let p = self.partition_point(length);
        self.get_mut(p)
    }

    /// The length of the segment at the given index.
    pub fn get_length(&mut self, index: usize) -> (r: u64)
        requires
            index < old(self).aligned().len(),
        ensures
            r == old(self).spans()[index as int].0,
            *final(self) == *old(self),
    {
        self.segments.at(index).length
    }

    /// Removes the last segment and hands it back.
    pub fn pop(&mut self) -> (r: Option<Segment<T>>)
        requires
            old(self).wf(),
        ensures
            final(self).wf(),
            old(self).spans().len() == 0 ==> r is None && final(self).spans() == old(self).spans(),
            old(self).spans().len() > 0 ==> (r matches Some(g) && g@ == old(self).spans().last()
                && final(self).spans() == old(self).spans().drop_last()),
    {
        let ghost s = self.aligned();
        match self.segments.pop() {
            None => None,
            Some(last) => {
                self.total_length = last.alignment;
                proof {
                    lemma_chain_take(s, 0, s.len() - 1);
                    assert(self.aligned() =~= s.take(s.len() - 1));
                    if s.len() > 1 {
                        assert(start_at(s, s.len() - 1) == end_at(s, s.len() - 2));
                    }
                    assert(self.spans() =~= pieces(s).drop_last());
                }
                Some(Segment { length: last.length, value: last.value })
            },
        }
    }

    /// Appends a segment at the end of the whole.
    pub fn push(&mut self, segment: Segment<T>)
        requires
            old(self).wf(),
            old(self).spec_total() + segment@.0 <= u64::MAX,
        ensures
            final(self).wf(),
            final(self).spans() == old(self).spans().push(segment@),
            final(self).spec_total() == old(self).spec_total() + segment@.0,
    {
        let ghost s = self.aligned();
        let a = AlignedSegment {
            alignment: self.total_length,
            length: segment.length,
            value: segment.value,
        };
        proof {
            lemma_chain_push(s, 0, a);
        }
        self.segments.push(a);
        self.total_length = self.total_length + segment.length;
        assert(self.spans() =~= pieces(s).push(segment@));
    }


    /// The segments before `start` are aligned, and the lengths from there on, added to
    /// where they begin, still fit in a `u64`.
    pub open spec fn aligned_before(&self, start: int) -> bool {
        let k = if start < self.aligned().len() { start } else { self.aligned().len() as int };
        &&& 0 <= start
        &&& contiguous(self.aligned().take(k))
        &&& extent(self.aligned().take(k)) + sum_lengths(pieces(self.aligned().skip(k)))
            <= u64::MAX
    }

    proof fn lemma_sum_split(s: Seq<AlignedSegment<T>>, k: int)
        requires
            0 <= k <= s.len(),
        ensures
            sum_lengths(pieces(s)) == sum_lengths(pieces(s.take(k))) + sum_lengths(
                pieces(s.skip(k)),
            ),
    {
        assert(pieces(s) =~= pieces(s.take(k)) + pieces(s.skip(k)));
        lemma_sum_concat(pieces(s.take(k)), pieces(s.skip(k)));
    }

    /// A well-formed whole is aligned before any index.
    proof fn lemma_wf_aligned_before(&self, start: int)
        requires
            self.wf(),
            0 <= start <= self.aligned().len(),
        ensures
            self.aligned_before(start),
    {
        let s = self.aligned();
        lemma_chain_take(s, 0, start);
        lemma_reach_is_sum(s.take(start), 0);
        lemma_reach_is_sum(s, 0);
        Self::lemma_sum_split(s, start);
    }

    /// Recomputes the alignment of every segment and the total length.
    pub fn realign(&mut self)
        requires
            old(self).aligned_before(0),
        ensures
            final(self).wf(),
            final(self).spans() == old(self).spans(),
    {
        self.realign_from(0);
    }

    /// Recomputes the alignment of the segments from `start` on, trusting those before it,
    /// and the total length.
    pub fn realign_from(&mut self, start: usize)
        requires
            old(self).aligned_before(start as int),
        ensures
            final(self).wf(),
            final(self).spans() == old(self).spans(),
    {
        let ghost s0 = self.aligned();
        let n = self.segments.len();
        let mut i: usize = if start < n { start } else { n };
        let mut running: u64 = if i == 0 {
            0
        } else {
            proof {
                lemma_chain_take(s0.take(i as int), 0, i as int);
                assert(s0.take(i as int).take(i as int) =~= s0.take(i as int));
                Self::lemma_sum_split(s0, i as int);
                lemma_within_reach(s0.take(i as int), 0, i - 1);
            }
            self.segments.at(i - 1).alignment + self.segments.at(i - 1).length
        };
        assert(s0.take(i as int).len() > 0 ==> running == extent(s0.take(i as int)));
        while i < n
            invariant
                n == s0.len() == self.aligned().len(),
                0 <= i <= n,
                contiguous(self.aligned().take(i as int)),
                running == extent(self.aligned().take(i as int)),
                self.aligned().skip(i as int) == s0.skip(i as int),
                forall|j: int|
                    0 <= j < n ==> #[trigger] self.aligned()[j].spec_length() == s0[j].spec_length()
                        && self.aligned()[j].spec_value() == s0[j].spec_value(),
                running + sum_lengths(pieces(s0.skip(i as int))) <= u64::MAX,
            decreases n - i,
        {
            let ghost before = self.aligned();
            proof {
                assert(pieces(s0.skip(i as int)) =~= seq![(s0[i as int].spec_length(), s0[i as int].spec_value())] + pieces(s0.skip(i + 1)));
                lemma_sum_concat(seq![(s0[i as int].spec_length(), s0[i as int].spec_value())], pieces(s0.skip(i + 1)));
                assert(seq![(s0[i as int].spec_length(), s0[i as int].spec_value())].drop_last() =~= Seq::<(nat, T)>::empty());
                assert(self.aligned()[i as int] == s0[i as int]) by {
                    assert(self.aligned()[i as int] == self.aligned().skip(i as int)[0]);
                }
            }
            self.segments.at_mut(i).alignment = running;
            proof {
                lemma_chain_push(before.take(i as int), 0, self.aligned()[i as int]);
                assert(self.aligned().take(i + 1) =~= before.take(i as int).push(self.aligned()[i as int]));
                assert(self.aligned().skip(i + 1) =~= s0.skip(i + 1)) by {
                    assert forall|j: int| 0 <= j < n - i - 1 implies #[trigger] self.aligned().skip(i + 1)[j] == s0.skip(i + 1)[j] by {
                        assert(before.skip(i as int)[j + 1] == s0.skip(i as int)[j + 1]);
                    }
                }
            }
            running = running + self.segments.at(i).length;
            i = i + 1;
        }
        self.total_length = running;
        proof {
            assert(self.aligned().take(n as int) =~= self.aligned());
            assert(self.spans() =~= pieces(s0));
        }
    }

    /// Inserts a segment at the given index; those from there on move one place up.
    pub fn insert(&mut self, index: usize, segment: Segment<T>)
        requires
            old(self).wf(),
            index <= old(self).spans().len(),
            old(self).spec_total() + segment@.0 <= u64::MAX,
        ensures
            final(self).wf(),
            final(self).spans() == old(self).spans().insert(index as int, segment@),
            final(self).spec_total() == old(self).spec_total() + segment@.0,
    {
        let ghost s0 = self.aligned();
        proof {
            self.lemma_wf_aligned_before(index as int);
            Self::lemma_sum_split(s0, index as int);
            lemma_reach_is_sum(s0, 0);
            lemma_chain_take(s0, 0, index as int);
            lemma_reach_is_sum(s0.take(index as int), 0);
        }
        self.segments.insert(
            index,
            AlignedSegment { alignment: 0, length: segment.length, value: segment.value },
        );
        let ghost s1 = self.aligned();
        proof {
            assert(s1.take(index as int) =~= s0.take(index as int));
            assert(pieces(s1.skip(index as int)) =~= seq![segment@] + pieces(s0.skip(index as int)));
            lemma_sum_concat(seq![segment@], pieces(s0.skip(index as int)));
            lemma_sum_single(segment@);
            assert(extent(s1.take(index as int)) == extent(s0.take(index as int)));
            assert(sum_lengths(pieces(s1.skip(index as int))) == segment@.0 + sum_lengths(pieces(s0.skip(index as int))));
            assert(self.aligned_before(index as int));
        }
        self.realign_from(index);
        proof {
            assert(pieces(s1) =~= pieces(s0).insert(index as int, segment@));
            lemma_reach_is_sum(self.aligned(), 0);
            Self::lemma_sum_split(s1, index as int);
            assert(sum_lengths(pieces(s1.take(index as int))) == sum_lengths(pieces(s0.take(index as int))));
        }
    }

    /// Inserts a segment before the one covering the given length (at the end when the
    /// length is at or past the end). Returns where it was inserted.
    pub fn insert_at(&mut self, length: u64, segment: Segment<T>) -> (r: usize)
        requires
            old(self).wf(),
            old(self).spec_total() + segment@.0 <= u64::MAX,
        ensures
            r == index_at(old(self).aligned(), length as int),
            final(self).wf(),
            final(self).spans() == old(self).spans().insert(r as int, segment@),
            final(self).spec_total() == old(self).spec_total() + segment@.0,
    {
        let p = self.partition_point(length);
        if self.count() == p {
            proof {
                assert(self.spans().insert(p as int, segment@) =~= self.spans().push(segment@));
            }
            self.push(segment);
        } else {
            self.insert(p, segment);
        }
        p
    }

    /// Gives the segment at the given index a new length; those after it move along.
    pub fn set_length(&mut self, index: usize, length: u64)
        requires
            old(self).wf(),
            index < old(self).spans().len(),
            old(self).spec_total() - old(self).spans()[index as int].0 + length <= u64::MAX,
        ensures
            final(self).wf(),
            final(self).spans() == old(self).spans().update(
                index as int,
                (length as nat, old(self).spans()[index as int].1),
            ),
            final(self).spec_total() == old(self).spec_total() - old(self).spans()[index as int].0
                + length,
    {
        let ghost s0 = self.aligned();
        proof {
            self.lemma_wf_aligned_before(index + 1);
            lemma_chain_take(s0, 0, index + 1);
            lemma_reach_is_sum(s0, 0);
            Self::lemma_sum_split(s0, index + 1);
            lemma_reach_is_sum(s0.take(index + 1), 0);
        }
        self.segments.at_mut(index).length = length;
        let ghost s1 = self.aligned();
        proof {
            assert(pieces(s1) =~= pieces(s0).update(
                index as int,
                (length as nat, pieces(s0)[index as int].1),
            ));
        }
        if self.count() == 1 {
            self.total_length = length;
            return ;
        }
        proof {
            let t0 = s0.take(index + 1);
            let t1 = s1.take(index + 1);
            assert forall|i: int| 0 < i < t1.len() implies #[trigger] start_at(t1, i) == end_at(
                t1,
                i - 1,
            ) by {
                assert(start_at(t0, i) == end_at(t0, i - 1));
            }
            assert(s1.skip(index + 1) =~= s0.skip(index + 1));
            lemma_reach_is_sum(t1, 0);
            lemma_reach_is_sum(t0, 0);
            Self::lemma_sum_split(s1, index + 1);
            assert(self.aligned_before(index + 1));
        }
        self.realign_from(index + 1);
        proof {
            lemma_reach_is_sum(self.aligned(), 0);
            lemma_reach_is_sum(s0, 0);
            Self::lemma_sum_split(s1, index + 1);
            Self::lemma_sum_split(s0, index + 1);
        }
    }

    /// Keeps the first `len` segments and drops the rest.
    pub fn truncate(&mut self, len: usize)
        requires
            old(self).wf(),
        ensures
            final(self).wf(),
            final(self).spans() == old(self).spans().take(
                if len < old(self).spans().len() {
                    len as int
                } else {
                    old(self).spans().len() as int
                },
            ),
    {
        let ghost s0 = self.aligned();
        self.segments.truncate(len);
        let n = self.segments.len();
        proof {
            lemma_chain_take(s0, 0, n as int);
            assert(self.aligned() =~= s0.take(n as int));
            assert(self.spans() =~= pieces(s0).take(n as int));
        }
        if n > 0 {
            proof {
                lemma_within_reach(s0, 0, n - 1);
            }
            self.total_length = self.segments.at(n - 1).alignment + self.segments.at(n - 1).length;
        } else {
            self.total_length = 0;
        }
    }

    /// Cuts the whole at `length`: the segment covering it is shortened to end there (or
    /// dropped when it starts there), and the segments after it are dropped.
    pub fn truncate_at(&mut self, length: u64)
        requires
            old(self).wf(),
        ensures
            final(self).wf(),
            length >= old(self).spec_total() ==> *final(self) == *old(self),
            length < old(self).spec_total() ==> final(self).spans() == head_until(
                old(self).aligned(),
                length as int,
            ) && final(self).spec_total() == length,
    {
        if length >= self.total_length {
            return ;
        }
        let ghost s0 = self.aligned();
        let p = self.partition_point(length);
        if self.segments.at(p).alignment == length {
            self.truncate(p);
            proof {
                if p > 0 {
                    assert(start_at(s0, p as int) == end_at(s0, p - 1));
                    lemma_chain_take(s0, 0, p as int);
                }
                assert(head_until(s0, length as int) == pieces(s0).take(p as int));
                assert(self.spans() == pieces(s0).take(p as int));
                lemma_chain_take(s0, 0, p as int);
                lemma_reach_is_sum(self.aligned(), 0);
                lemma_reach_is_sum(s0.take(p as int), 0);
                assert(pieces(s0.take(p as int)) =~= pieces(s0).take(p as int));
            }
        } else {
            let cut = length - self.segments.at(p).alignment;
            self.segments.at_mut(p).length = cut;
            let ghost s1 = self.aligned();
            proof {
                lemma_chain_take(s0, 0, p + 1);
                let t0 = s0.take(p + 1);
                let t1 = s1.take(p + 1);
                assert forall|i: int| 0 < i < t1.len() implies #[trigger] start_at(t1, i) == end_at(
                    t1,
                    i - 1,
                ) by {
                    assert(start_at(t0, i) == end_at(t0, i - 1));
                }
                assert(pieces(t1) =~= pieces(s0).take(p as int).push(
                    ((length - start_at(s0, p as int)) as nat, s0[p as int].spec_value()),
                ));
            }
            let n = self.segments.len();
            assert(p < n);
            self.segments.truncate(p + 1);
            self.total_length = length;
            proof {
                let t1 = s1.take(p + 1);
                assert(self.aligned() =~= t1);
                assert(start_at(t1, 0) == 0);
                assert(extent(t1) == length);
                assert(head_until(s0, length as int) == pieces(s0).take(p as int).push(
                    ((length - start_at(s0, p as int)) as nat, s0[p as int].spec_value()),
                ));
            }
        }
    }

    /// Makes the whole a single segment of the same total length carrying `value`. Returns
    /// the index of that segment, or `None` when there is no segment to begin with.
    pub fn set_whole(&mut self, value: T) -> (r: Option<usize>)
        requires
            old(self).wf(),
        ensures
            final(self).wf(),
            old(self).spans().len() == 0 ==> r is None && *final(self) == *old(self),
            old(self).spans().len() > 0 ==> r == Some(0usize) && final(self).spans() == seq![
                (old(self).spec_total(), value),
            ] && final(self).spec_total() == old(self).spec_total(),
    {
        let count = self.count();
        if count == 0 {
            return None;
        }
        if count > 1 {
            self.segments.truncate(1);
        }
        self.segments.at_mut(0).length = self.total_length;
        self.segments.at_mut(0).value = value;
        proof {
            assert(self.spans() =~= seq![(self.spec_total(), value)]);
        }
        Some(0)
    }

    /// Builds the whole from segments laid end to end in the given order.
    pub fn from_segments(segments: Vec<Segment<T>>) -> (r: Self)
        requires
            sum_lengths(segments@.map_values(|g: Segment<T>| g@)) <= u64::MAX,
        ensures
            r.wf(),
            r.spans() == segments@.map_values(|g: Segment<T>| g@),
    {
        let ghost g0 = segments@.map_values(|g: Segment<T>| g@);
        let ghost n0 = segments@.len() as int;
        let mut contig = Self::new();
        let mut rest = reversed(segments);
        let ghost mut i: int = 0;
        proof {
            assert(g0.take(0) =~= Seq::<(nat, T)>::empty());
        }
        while rest.len() > 0
            invariant
                contig.wf(),
                0 <= i <= n0,
                g0.len() == n0,
                rest@.len() + i == n0,
                forall|j: int| 0 <= j < rest@.len() ==> #[trigger] rest@[j]@ == g0[n0 - 1 - j],
                contig.spans() == g0.take(i),
                contig.spec_total() == sum_lengths(g0.take(i)),
                sum_lengths(g0) <= u64::MAX,
            decreases rest@.len(),
        {
            let ghost last = rest@.len() - 1;
            match rest.pop() {
                Some(segment) => {
                    proof {
                        assert(segment@ == g0[i]);
                        assert(g0.take(i + 1) =~= g0.take(i).push(g0[i]));
                        assert(g0.take(i + 1).drop_last() =~= g0.take(i));
                        assert(g0 =~= g0.take(i + 1) + g0.skip(i + 1));
                        lemma_sum_concat(g0.take(i + 1), g0.skip(i + 1));
                    }
                    contig.push(segment);
                    proof {
                        i = i + 1;
                    }
                },
                None => {},
            }
        }
        proof {
            assert(g0.take(n0) =~= g0);
        }
        contig
    }

    /// Empties the store and hands back its segments in reverse order.
    fn take_reversed(&mut self) -> (r: Vec<AlignedSegment<T>>)
        ensures
            final(self).aligned().len() == 0,
            final(self).spec_total() == old(self).spec_total(),
            r@.len() == old(self).aligned().len(),
            forall|i: int|
                0 <= i < r@.len() ==> #[trigger] r@[i] == old(self).aligned()[r@.len() - 1 - i],
    {
        let mut segments = C::new();
        std::mem::swap(&mut self.segments, &mut segments);
        let ghost v0 = segments@;
        let mut r: Vec<AlignedSegment<T>> = Vec::new();
        while segments.len() > 0
            invariant
                r@.len() + segments@.len() == v0.len(),
                segments@ == v0.take(segments@.len() as int),
                forall|i: int| 0 <= i < r@.len() ==> #[trigger] r@[i] == v0[v0.len() - 1 - i],
            decreases segments@.len(),
        {
            match segments.pop() {
                Some(x) => {
                    r.push(x);
                },
                None => {},
            }
        }
        r
    }

    /// Removes the segments of zero length; the others close up.
    pub fn clean(&mut self)
        requires
            old(self).wf(),
        ensures
            final(self).wf(),
            final(self).spans() == without_empty(old(self).spans()),
            final(self).spec_total() == old(self).spec_total(),
    {
        let ghost s0 = self.aligned();
        let ghost pairs = pieces(s0);
        let ghost n0 = s0.len() as int;
        let ghost total0 = self.spec_total();
        proof {
            lemma_reach_is_sum(s0, 0);
        }
        let mut rest = self.take_reversed();
        self.total_length = 0;
        let ghost mut i: int = 0;
        proof {
            assert(pairs.take(0) =~= Seq::<(nat, T)>::empty());
            assert(self.spans() =~= Seq::<(nat, T)>::empty());
        }
        while rest.len() > 0
            invariant
                0 <= i <= n0,
                pairs.len() == n0,
                pairs == pieces(s0),
                rest@.len() + i == n0,
                forall|j: int| 0 <= j < rest@.len() ==> #[trigger] rest@[j] == s0[n0 - 1 - j],
                contiguous(self.aligned()),
                self.spec_total() == extent(self.aligned()),
                self.spans() == without_empty(pairs.take(i)),
                self.spec_total() == sum_lengths(pairs.take(i)),
                sum_lengths(pairs) == total0,
                total0 <= u64::MAX,
            decreases rest@.len(),
        {
            let ghost before = self.aligned();
            match rest.pop() {
                Some(a) => {
                    proof {
                        assert(a == s0[i]);
                        assert(pairs.take(i + 1) =~= pairs.take(i).push(pairs[i]));
                        assert(pairs.take(i + 1).drop_last() =~= pairs.take(i));
                        assert(pairs =~= pairs.take(i + 1) + pairs.skip(i + 1));
                        lemma_sum_concat(pairs.take(i + 1), pairs.skip(i + 1));
                    }
                    if a.length > 0 {
                        let b = AlignedSegment {
                            alignment: self.total_length,
                            length: a.length,
                            value: a.value,
                        };
                        proof {
                            lemma_chain_push(before, 0, b);
                        }
                        self.segments.push(b);
                        self.total_length = self.total_length + a.length;
                        proof {
                            assert(self.spans() =~= without_empty(pairs.take(i)).push(pairs[i]));
                        }
                    }
                    proof {
                        i = i + 1;
                    }
                },
                None => {},
            }
        }
        proof {
            assert(pairs.take(n0) =~= pairs);
        }
    }

    /// Joins each run of neighbouring segments with equal values into one segment.
    pub fn merge(&mut self)
        where
            T: PartialEq,
        requires
            old(self).wf(),
            vstd::laws_eq::obeys_concrete_eq::<T>(),
        ensures
            final(self).wf(),
            final(self).spans() == merged(old(self).spans()),
            final(self).spec_total() == old(self).spec_total(),
    {
        proof {
            reveal(vstd::laws_eq::obeys_concrete_eq);
        }
        let ghost s0 = self.aligned();
        let ghost pairs = pieces(s0);
        let ghost n0 = s0.len() as int;
        let ghost total0 = self.spec_total();
        proof {
            lemma_reach_is_sum(s0, 0);
        }
        let mut rest = self.take_reversed();
        self.total_length = 0;
        let ghost mut i: int = 0;
        proof {
            assert(pairs.take(0) =~= Seq::<(nat, T)>::empty());
            assert(self.spans() =~= Seq::<(nat, T)>::empty());
        }
        while rest.len() > 0
            invariant
                0 <= i <= n0,
                pairs.len() == n0,
                pairs == pieces(s0),
                rest@.len() + i == n0,
                forall|j: int| 0 <= j < rest@.len() ==> #[trigger] rest@[j] == s0[n0 - 1 - j],
                contiguous(self.aligned()),
                self.spec_total() == extent(self.aligned()),
                self.spans() == merged(pairs.take(i)),
                self.spec_total() == sum_lengths(pairs.take(i)),
                sum_lengths(pairs) == total0,
                total0 <= u64::MAX,
                vstd::laws_eq::obeys_concrete_eq::<T>(),
            decreases rest@.len(),
        {
            let ghost before = self.aligned();
            match rest.pop() {
                Some(a) => {
                    proof {
                        assert(a == s0[i]);
                        assert(pairs.take(i + 1) =~= pairs.take(i).push(pairs[i]));
                        assert(pairs.take(i + 1).drop_last() =~= pairs.take(i));
                        assert(pairs =~= pairs.take(i + 1) + pairs.skip(i + 1));
                        lemma_sum_concat(pairs.take(i + 1), pairs.skip(i + 1));
                        reveal(vstd::laws_eq::obeys_concrete_eq);
                    }
                    let n = self.segments.len();
                    if n > 0 && self.segments.at(n - 1).value.eq(&a.value) {
                        proof {
                            lemma_within_reach(before, 0, n - 1);
                            assert(before[n - 1].value.eq_spec(&a.value));
                            assert(before[n - 1].value == a.value);
                            assert(merged(pairs.take(i)).last() == pieces(before)[n - 1]);
                        }
                        self.segments.at_mut(n - 1).length = self.segments.at(n - 1).length + a.length;
                        self.total_length = self.total_length + a.length;
                        proof {
                            let s1 = self.aligned();
                            assert forall|k: int| 0 < k < s1.len() implies #[trigger] start_at(
                                s1,
                                k,
                            ) == end_at(s1, k - 1) by {
                                assert(start_at(before, k) == end_at(before, k - 1));
                            }
                            let m = merged(pairs.take(i));
                            assert(self.spans() =~= m.update(
                                m.len() - 1,
                                ((m.last().0 + pairs[i].0) as nat, pairs[i].1),
                            ));
                        }
                    } else {
                        let b = AlignedSegment {
                            alignment: self.total_length,
                            length: a.length,
                            value: a.value,
                        };
                        proof {
                            lemma_chain_push(before, 0, b);
                        }
                        self.segments.push(b);
                        self.total_length = self.total_length + a.length;
                        proof {
                            assert(n > 0 ==> before[n - 1].value != a.value);
                            assert(n > 0 ==> merged(pairs.take(i)).last() == pieces(before)[n - 1]);
                            assert(self.spans() =~= merged(pairs.take(i)).push(pairs[i]));
                        }
                    }
                    proof {
                        i = i + 1;
                    }
                },
                None => {},
            }
        }
        proof {
            assert(pairs.take(n0) =~= pairs);
        }
    }

    /// Cuts the segment covering `length` in two at `length`; the upper part gets a clone of
    /// the value. Returns the two parts, or `None` when `length` is at or past the end.
    pub fn split_at(&mut self, length: u64) -> (r: Option<[IndexedSegment<'_, T>; 2]>)
        where
            T: Clone,
        requires
            old(self).wf(),
        ensures
            final(self).wf(),
            final(self).spec_total() == old(self).spec_total(),
            length >= old(self).spec_total() ==> r is None && *final(self) == *old(self),
            length < old(self).spec_total() ==> (r matches Some(pair) && pair[0].index == index_at(
                old(self).aligned(),
                length as int,
            ) && pair[1].index == pair[0].index + 1 && *pair[0].segment == final(self).aligned()[pair[0].index as int] && *pair[1].segment == final(self).aligned()[pair[1].index as int] && same_but_clone_at(
                split_pieces(old(self).aligned(), length as int),
                final(self).spans(),
                pair[1].index as int,
            )),
    {
        let ghost s0 = self.aligned();
        let low_index = match self.get_index_at(length) {
            Some(i) => i,
            None => {
                return None;
            },
        };
        proof {
            lemma_covers_is_partition_point(s0, length as int, low_index as int);
            self.lemma_end_fits(low_index as int);
            lemma_reach_take(s0, low_index as int);
        }
        let n = self.segments.len();
        assert(low_index < n);
        let high_index = low_index + 1;
        let start = self.segments.at(low_index).alignment;
        let high_length = start + self.segments.at(low_index).length - length;
        let value = self.segments.at(low_index).value.clone();
        self.segments.at_mut(low_index).length = length - start;
        let ghost low = self.aligned()[low_index as int];
        let high = AlignedSegment { alignment: length, length: high_length, value };
        let ghost highg = high;
        self.segments.insert(high_index, high);
        proof {
            let mid = seq![low, highg];
            assert(self.aligned() =~= s0.take(low_index as int) + mid + s0.skip(high_index as int));
            lemma_splice(s0, low_index as int, high_index as int, mid);
            assert(pieces(mid) =~= seq![
                ((length - start_at(s0, low_index as int)) as nat, s0[low_index as int].spec_value()),
                ((end_at(s0, low_index as int) - length) as nat, highg.spec_value()),
            ]);
            let m = split_pieces(s0, length as int);
            assert(self.spans().len() == m.len());
            assert(self.spans()[high_index as int].0 == m[high_index as int].0);
            assert forall|j: int| 0 <= j < m.len() && j != high_index implies #[trigger] self.spans()[j] == m[j] by {
                if j < low_index {
                    assert(self.spans()[j] == pieces(s0)[j]);
                } else if j > high_index {
                    assert(self.spans()[j] == pieces(s0)[j - 1]);
                }
            }
        }
        Some(
            [
                IndexedSegment { index: low_index, segment: self.segments.at(low_index) },
                IndexedSegment { index: high_index, segment: self.segments.at(high_index) },
            ],
        )
    }

    /// Overwrites `[a, b)` with `value`, where `b` is at or past the end: the whole then
    /// ends at `b`. Segment `i` covers `a`. Returns the index of the new segment.
    fn overwrite_to_end(&mut self, i: usize, a: u64, b: u64, value: T) -> (h: usize)
        requires
            old(self).wf(),
            covers(old(self).aligned(), i as int, a as int),
            a < b,
            old(self).spec_total() <= b,
        ensures
            final(self).wf(),
            h == head_until(old(self).aligned(), a as int).len(),
            final(self).spans() == overwritten(old(self).aligned(), a as int, b as int, value),
            final(self).spec_total() == b,
    {
        let ghost s0 = self.aligned();
        let ghost n0 = s0.len() as int;
        proof {
            lemma_covers_is_partition_point(s0, a as int, i as int);
            lemma_index_past_end(s0, b as int);
            lemma_reach_take(s0, i as int);
            self.lemma_end_fits(i as int);
        }
        let n = self.segments.len();
        self.total_length = b;
        if self.segments.at(i).alignment == a {
            self.segments.truncate(i + 1);
            self.segments.at_mut(i).value = value;
            self.segments.at_mut(i).length = b - a;
            proof {
                let mid = self.aligned().subrange(i as int, i + 1);
                assert(self.aligned() =~= s0.take(i as int) + mid + s0.skip(n0));
                lemma_splice(s0, i as int, n0, mid);
                assert(pieces(mid) =~= seq![((b - a) as nat, value)]);
                assert(self.spans() =~= overwritten(s0, a as int, b as int, value));
            }
            i
        } else {
            let start = self.segments.at(i).alignment;
            self.segments.at_mut(i).length = a - start;
            if i + 1 < n {
                self.segments.at_mut(i + 1).alignment = a;
                self.segments.at_mut(i + 1).length = b - a;
                self.segments.at_mut(i + 1).value = value;
                self.segments.truncate(i + 2);
            } else {
                self.segments.push(AlignedSegment { alignment: a, length: b - a, value });
            }
            proof {
                let mid = self.aligned().subrange(i as int, i + 2);
                assert(self.aligned() =~= s0.take(i as int) + mid + s0.skip(n0));
                lemma_splice(s0, i as int, n0, mid);
                assert(pieces(mid) =~= seq![
                    ((a - start) as nat, s0[i as int].spec_value()),
                    ((b - a) as nat, value),
                ]);
                assert(self.spans() =~= overwritten(s0, a as int, b as int, value));
            }
            i + 1
        }
    }

    /// Overwrites `[a, b)` with `value`, where segment `i` covers both `a` and `b`. Returns
    /// the index of the new segment.
    #[verifier::rlimit(30)]
    fn overwrite_in_one(&mut self, i: usize, a: u64, b: u64, value: T) -> (h: usize)
        where
            T: Clone,
        requires
            old(self).wf(),
            covers(old(self).aligned(), i as int, a as int),
            covers(old(self).aligned(), i as int, b as int),
            a < b,
        ensures
            final(self).wf(),
            h == head_until(old(self).aligned(), a as int).len(),
            same_but_clone_at(
                overwritten(old(self).aligned(), a as int, b as int, value),
                final(self).spans(),
                h + 1,
            ),
            final(self).spec_total() == old(self).spec_total(),
    {
        let ghost s0 = self.aligned();
        proof {
            lemma_covers_is_partition_point(s0, a as int, i as int);
            lemma_covers_is_partition_point(s0, b as int, i as int);
            lemma_reach_take(s0, i as int);
            self.lemma_end_fits(i as int);
        }
        let start_i = self.segments.at(i).alignment;
        let end_i = start_i + self.segments.at(i).length;
        if start_i == a {
            // the new segment takes the front of segment i
            self.segments.at_mut(i).alignment = b;
            self.segments.at_mut(i).length = end_i - b;
            self.segments.insert(i, AlignedSegment { alignment: a, length: b - a, value });
            proof {
                let mid = self.aligned().subrange(i as int, i + 2);
                assert(self.aligned() =~= s0.take(i as int) + mid + s0.skip(i + 1));
                lemma_splice(s0, i as int, i + 1, mid);
                assert(pieces(mid) =~= seq![
                    ((b - a) as nat, value),
                    ((end_i - b) as nat, s0[i as int].spec_value()),
                ]);
                assert(self.spans() =~= overwritten(s0, a as int, b as int, value));
                lemma_same_but_clone_refl(self.spans(), i + 1);
            }
            i
        } else {
            // segment i is cut in three; the last part gets a clone of its value
            let c = self.segments.at(i).value.clone();
            self.segments.at_mut(i).length = a - start_i;
            let n = self.segments.len();
            assert(i < n);
            self.segments.insert(i + 1, AlignedSegment { alignment: a, length: b - a, value });
            let n1 = self.segments.len();
            assert(i + 1 < n1);
            let ghost cg = c;
            self.segments.insert(
                i + 2,
                AlignedSegment { alignment: b, length: end_i - b, value: c },
            );
            proof {
                let mid = self.aligned().subrange(i as int, i + 3);
                assert(self.aligned() =~= s0.take(i as int) + mid + s0.skip(i + 1));
                lemma_splice(s0, i as int, i + 1, mid);
                let m = overwritten(s0, a as int, b as int, value);
                let f = self.spans();
                assert(pieces(mid) =~= seq![
                    ((a - start_i) as nat, s0[i as int].spec_value()),
                    ((b - a) as nat, value),
                    ((end_i - b) as nat, cg),
                ]);
                assert(f =~= pieces(s0).take(i as int) + pieces(mid) + pieces(s0).skip(i + 1));
                assert(m =~= pieces(s0).take(i as int) + seq![
                    ((a - start_i) as nat, s0[i as int].spec_value()),
                    ((b - a) as nat, value),
                    ((end_i - b) as nat, s0[i as int].spec_value()),
                ] + pieces(s0).skip(i + 1));
                assert forall|k: int| 0 <= k < m.len() && k != i + 2 implies #[trigger] f[k]
                    == m[k] by {}
            }
            i + 1
        }
    }

    /// Overwrites `[a, b)` with `value`, where segment `i` starts at `a` and segment `j`, a
    /// later one, covers `b`. Returns the index of the new segment.
    fn overwrite_across_aligned(&mut self, i: usize, j: usize, a: u64, b: u64, value: T) -> (h: usize)
        requires
            old(self).wf(),
            covers(old(self).aligned(), i as int, a as int),
            covers(old(self).aligned(), j as int, b as int),
            i < j,
            a < b,
            start_at(old(self).aligned(), i as int) == a,
        ensures
            final(self).wf(),
            h == head_until(old(self).aligned(), a as int).len(),
            final(self).spans() == overwritten(old(self).aligned(), a as int, b as int, value),
            final(self).spec_total() == old(self).spec_total(),
    {
        let ghost s0 = self.aligned();
        proof {
            lemma_covers_is_partition_point(s0, a as int, i as int);
            lemma_covers_is_partition_point(s0, b as int, j as int);
            lemma_reach_take(s0, i as int);
            lemma_reach_take(s0, j as int);
            self.lemma_end_fits(i as int);
            self.lemma_end_fits(j as int);
        }
        let end_j = self.segments.at(j).alignment + self.segments.at(j).length;
        // the segments strictly between go; segment i becomes the new one
        self.segments.drain(i + 1, j);
        self.segments.at_mut(i).length = b - a;
        self.segments.at_mut(i).value = value;
        self.segments.at_mut(i + 1).alignment = b;
        self.segments.at_mut(i + 1).length = end_j - b;
        proof {
            let mid = self.aligned().subrange(i as int, i + 2);
            assert(self.aligned() =~= s0.take(i as int) + mid + s0.skip(j + 1));
            lemma_splice(s0, i as int, j + 1, mid);
            assert(pieces(mid) =~= seq![
                ((b - a) as nat, value),
                ((end_j - b) as nat, s0[j as int].spec_value()),
            ]);
            assert(self.spans() =~= overwritten(s0, a as int, b as int, value));
        }
        i
    }

    /// Overwrites `[a, b)` with `value`, where segment `i` starts before `a` and covers it,
    /// and the next segment covers `b`: the new segment goes between the two. Returns its
    /// index.
    fn overwrite_adjacent(&mut self, i: usize, j: usize, a: u64, b: u64, value: T) -> (h: usize)
        requires
            old(self).wf(),
            covers(old(self).aligned(), i as int, a as int),
            covers(old(self).aligned(), j as int, b as int),
            j == i + 1,
            a < b,
            start_at(old(self).aligned(), i as int) < a,
        ensures
            final(self).wf(),
            h == head_until(old(self).aligned(), a as int).len(),
            final(self).spans() == overwritten(old(self).aligned(), a as int, b as int, value),
            final(self).spec_total() == old(self).spec_total(),
    {
        let ghost s0 = self.aligned();
        proof {
            lemma_covers_is_partition_point(s0, a as int, i as int);
            lemma_covers_is_partition_point(s0, b as int, j as int);
            lemma_reach_take(s0, i as int);
            lemma_reach_take(s0, j as int);
            self.lemma_end_fits(i as int);
            self.lemma_end_fits(j as int);
        }
        let start_i = self.segments.at(i).alignment;
        let end_j = self.segments.at(j).alignment + self.segments.at(j).length;
        self.segments.at_mut(i).length = a - start_i;
        self.segments.at_mut(j).alignment = b;
        self.segments.at_mut(j).length = end_j - b;
        self.segments.insert(i + 1, AlignedSegment { alignment: a, length: b - a, value });
        proof {
            let mid = self.aligned().subrange(i as int, i + 3);
            assert(self.aligned() =~= s0.take(i as int) + mid + s0.skip(j + 1));
            lemma_splice(s0, i as int, j + 1, mid);
            assert(pieces(mid) =~= seq![
                ((a - start_i) as nat, s0[i as int].spec_value()),
                ((b - a) as nat, value),
                ((end_j - b) as nat, s0[j as int].spec_value()),
            ]);
            assert(self.spans() =~= overwritten(s0, a as int, b as int, value));
        }
        i + 1
    }

    /// Overwrites `[a, b)` with `value`, where segment `i` starts before `a` and covers it,
    /// and segment `j`, with segments between, covers `b`: the first segment between becomes
    /// the new one and the others go. Returns its index.
    fn overwrite_with_gap(&mut self, i: usize, j: usize, a: u64, b: u64, value: T) -> (h: usize)
        requires
            old(self).wf(),
            covers(old(self).aligned(), i as int, a as int),
            covers(old(self).aligned(), j as int, b as int),
            i + 1 < j,
            a < b,
            start_at(old(self).aligned(), i as int) < a,
        ensures
            final(self).wf(),
            h == head_until(old(self).aligned(), a as int).len(),
            final(self).spans() == overwritten(old(self).aligned(), a as int, b as int, value),
            final(self).spec_total() == old(self).spec_total(),
    {
        let ghost s0 = self.aligned();
        proof {
            lemma_covers_is_partition_point(s0, a as int, i as int);
            lemma_covers_is_partition_point(s0, b as int, j as int);
            lemma_reach_take(s0, i as int);
            lemma_reach_take(s0, j as int);
            self.lemma_end_fits(i as int);
            self.lemma_end_fits(j as int);
        }
        let start_i = self.segments.at(i).alignment;
        let end_j = self.segments.at(j).alignment + self.segments.at(j).length;
        self.segments.drain(i + 2, j);
        self.segments.at_mut(i).length = a - start_i;
        self.segments.at_mut(i + 1).alignment = a;
        self.segments.at_mut(i + 1).length = b - a;
        self.segments.at_mut(i + 1).value = value;
        self.segments.at_mut(i + 2).alignment = b;
        self.segments.at_mut(i + 2).length = end_j - b;
        proof {
            let mid = self.aligned().subrange(i as int, i + 3);
            assert(self.aligned() =~= s0.take(i as int) + mid + s0.skip(j + 1));
            lemma_splice(s0, i as int, j + 1, mid);
            assert(pieces(mid) =~= seq![
                ((a - start_i) as nat, s0[i as int].spec_value()),
                ((b - a) as nat, value),
                ((end_j - b) as nat, s0[j as int].spec_value()),
            ]);
            assert(self.spans() =~= overwritten(s0, a as int, b as int, value));
        }
        i + 1
    }

    /// Gives the range from `start` to `end` over to `value`, cutting the segments at its
    /// bounds. An unbounded start is zero; an unbounded end is the end of the whole, and an
    /// end past it makes the whole longer. With both bounds open the whole becomes one
    /// segment. Returns the index of the segment that holds `value`, `None` only when both
    /// bounds are open and there is no segment.
    pub fn set_range(&mut self, start: Option<u64>, end: Option<u64>, value: T) -> (r: Option<
        usize,
    >)
        where
            T: Clone,
        requires
            old(self).wf(),
            start is Some || end is Some ==> range_start(start) < old(self).spec_total()
                && range_start(start) < range_end(end, old(self).spec_total() as int),
        ensures
            final(self).wf(),
            start is None && end is None && old(self).spans().len() == 0 ==> r is None
                && *final(self) == *old(self),
            start is None && end is None && old(self).spans().len() > 0 ==> r == Some(0usize)
                && final(self).spans() == seq![(old(self).spec_total(), value)]
                && final(self).spec_total() == old(self).spec_total(),
            start is Some || end is Some ==> r == Some(
                head_until(old(self).aligned(), range_start(start)).len() as usize,
            ) && same_but_clone_at(
                overwritten(
                    old(self).aligned(),
                    range_start(start),
                    range_end(end, old(self).spec_total() as int),
                    value,
                ),
                final(self).spans(),
                head_until(old(self).aligned(), range_start(start)).len() + 1 as int,
            ) && final(self).spec_total() == if range_end(end, old(self).spec_total() as int)
                < old(self).spec_total() {
                old(self).spec_total() as int
            } else {
                range_end(end, old(self).spec_total() as int)
            },
    {
        if start.is_none() && end.is_none() {
            return self.set_whole(value);
        }
        let a = match start {
            Some(x) => x,
            None => 0,
        };
        let b = match end {
            Some(x) => x,
            None => self.total_length,
        };
        let i = self.partition_point(a);
        if b >= self.total_length {
            let h = self.overwrite_to_end(i, a, b, value);
            proof {
                lemma_same_but_clone_refl(self.spans(), h + 1);
            }
            Some(h)
        } else {
            let j = self.partition_point(b);
            proof {
                if j < i {
                    lemma_chain_order(self.aligned(), 0, j as int, i as int);
                }
            }
            if i == j {
                Some(self.overwrite_in_one(i, a, b, value))
            } else {
                let h = if self.segments.at(i).alignment == a {
                    self.overwrite_across_aligned(i, j, a, b, value)
                } else if j == i + 1 {
                    self.overwrite_adjacent(i, j, a, b, value)
                } else {
                    self.overwrite_with_gap(i, j, a, b, value)
                };
                proof {
                    lemma_same_but_clone_refl(self.spans(), h + 1);
                }
                Some(h)
            }
        }
    }

    /// The stored segments, alignments included.
    pub fn as_slice(&self) -> (r: &[AlignedSegment<T>])
        ensures
            r@ == self.aligned(),
    {
        self.segments.as_slice()
    }

    pub fn total_length(&self) -> (r: u64)
        ensures
            r == self.spec_total(),
    {
        self.total_length
    }
}

impl<T: Clone, C: AnyVecMut<AlignedSegment<T>>> Clone for ContiguousSegments<T, C> {
    /// Same alignments and lengths, cloned values.
    fn clone(&self) -> (r: Self)
        ensures
            r.spec_total() == self.spec_total(),
            r.aligned().len() == self.aligned().len(),
            forall|i: int|
                0 <= i < self.aligned().len() ==> #[trigger] r.aligned()[i].spec_alignment()
                    == self.aligned()[i].spec_alignment() && r.aligned()[i].spec_length()
                    == self.aligned()[i].spec_length() && cloned(
                    self.aligned()[i].spec_value(),
                    r.aligned()[i].spec_value(),
                ),
            self.wf() ==> r.wf(),
    {
        let mut segments = C::new();
        let mut i: usize = 0;
        while i < self.segments.len()
            invariant
                0 <= i <= self.segments@.len(),
                segments@.len() == i,
                forall|j: int|
                    0 <= j < i ==> #[trigger] segments@[j].spec_alignment()
                        == self.segments@[j].spec_alignment() && segments@[j].spec_length()
                        == self.segments@[j].spec_length() && cloned(
                        self.segments@[j].spec_value(),
                        segments@[j].spec_value(),
                    ),
            decreases self.segments@.len() - i,
        {
            segments.push(self.segments.at(i).clone());
            i = i + 1;
        }
        proof {
            if self.wf() {
                lemma_same_layout(self.segments@, segments@);
            }
        }
        ContiguousSegments { segments, total_length: self.total_length, phantom: PhantomData }
    }
}

} // verus!
