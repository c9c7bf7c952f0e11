//! Laws of [`ContiguousSegments`] that hold across its operations.

use crate::anyvec::AnyVecMut;
use crate::contiguous_segment::{AlignedSegment, ContiguousSegments};
use crate::segment_model::{
    covers, end_at, lemma_covers_is_partition_point, lemma_reach_is_sum, lemma_same_layout,
    merged, split_pieces, start_at, sum_lengths,
};
use vstd::prelude::*;

verus! {

/// In a well-formed whole, each segment starts where the one before it ends, and the first
/// starts at zero. Every operation that changes the whole ensures it is well-formed.
pub proof fn law_contiguity<T, C: AnyVecMut<AlignedSegment<T>>>(c: &ContiguousSegments<T, C>)
    requires
        c.wf(),
    ensures
        c.aligned().len() > 0 ==> c.aligned()[0].spec_alignment() == 0,
        forall|i: int|
            0 <= i < c.aligned().len() - 1 ==> #[trigger] c.aligned()[i].spec_alignment()
                + c.aligned()[i].spec_length() == c.aligned()[i + 1].spec_alignment(),
{
    assert forall|i: int| 0 <= i < c.aligned().len() - 1 implies #[trigger] c.aligned()[i].spec_alignment()
        + c.aligned()[i].spec_length() == c.aligned()[i + 1].spec_alignment() by {
        assert(start_at(c.aligned(), i + 1) == end_at(c.aligned(), i));
    }
}

/// Changing values in place, as the views that `get_mut` and `get_mut_at` hand out do,
/// keeps a whole well-formed: the alignments, lengths and total stay.
pub proof fn law_value_change_keeps_contiguity<T, C: AnyVecMut<AlignedSegment<T>>>(
    before: &ContiguousSegments<T, C>,
    after: &ContiguousSegments<T, C>,
)
    requires
        before.wf(),
        after.aligned().len() == before.aligned().len(),
        after.spec_total() == before.spec_total(),
        forall|j: int|
            0 <= j < before.aligned().len() ==> #[trigger] after.aligned()[j].spec_alignment()
                == before.aligned()[j].spec_alignment(),
        forall|j: int|
            0 <= j < before.aligned().len() ==> #[trigger] after.spans()[j].0
                == before.spans()[j].0,
    ensures
        after.wf(),
{
    let a = before.aligned();
    let b = after.aligned();
    assert forall|i: int| 0 <= i < a.len() implies #[trigger] b[i] == b[i] && b[i].spec_alignment()
        == a[i].spec_alignment() && b[i].spec_length() == a[i].spec_length() by {
        assert(after.spans()[i].0 == b[i].spec_length());
        assert(before.spans()[i].0 == a[i].spec_length());
    }
    lemma_same_layout(a, b);
}

/// The total length of a well-formed whole is the sum of the lengths of its segments.
pub proof fn law_conservation<T, C: AnyVecMut<AlignedSegment<T>>>(c: &ContiguousSegments<T, C>)
    requires
        c.wf(),
    ensures
        c.spec_total() == sum_lengths(c.spans()),
{
    lemma_reach_is_sum(c.aligned(), 0);
}

/// Cutting a whole of one segment strictly inside it and joining the parts again gives back
/// the one segment, when the upper part holds the same value: `split_at` hands it a clone,
/// so this holds for values whose clones are equal to them.
pub proof fn law_split_then_merge<T, C: AnyVecMut<AlignedSegment<T>>>(c: &ContiguousSegments<T, C>, x: int)
    requires
        c.wf(),
        c.spans().len() == 1,
        0 < x < c.spec_total(),
    ensures
        merged(split_pieces(c.aligned(), x)) == c.spans(),
{
    let s = c.aligned();
    assert(covers(s, 0, x));
    lemma_covers_is_partition_point(s, x, 0);
    let p = split_pieces(s, x);
    let v = s[0].spec_value();
    assert(p =~= seq![((x - 0) as nat, v), ((end_at(s, 0) - x) as nat, v)]);
    assert(p.drop_last().drop_last() =~= Seq::<(nat, T)>::empty());
    assert(merged(p.drop_last()) =~= seq![(x as nat, v)]) by {
        assert(merged(p.drop_last().drop_last()) =~= Seq::<(nat, T)>::empty());
    }
    assert(merged(p) =~= seq![(end_at(s, 0) as nat, v)]);
    assert(c.spans() =~= seq![(end_at(s, 0) as nat, v)]);
}

} // verus!
