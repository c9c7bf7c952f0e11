//! The mathematical picture of a segment partition: where each segment starts and ends,
//! which segment covers a position, and what each edit makes of the sequence of
//! (length, value) pairs.

use crate::contiguous_segment::AlignedSegment;
use vstd::prelude::*;

verus! {

/// Where segment `i` starts.
pub open spec fn start_at<T>(s: Seq<AlignedSegment<T>>, i: int) -> int {
    s[i].spec_alignment() as int
}

/// Where segment `i` ends (exclusive).
pub open spec fn end_at<T>(s: Seq<AlignedSegment<T>>, i: int) -> int {
    (s[i].spec_alignment() + s[i].spec_length()) as int
}

/// The segments follow one another with no gap and no overlap, the first starting at `base`.
pub open spec fn chained<T>(s: Seq<AlignedSegment<T>>, base: int) -> bool {
    &&& (s.len() > 0 ==> start_at(s, 0) == base)
    &&& forall|i: int| 0 < i < s.len() ==> #[trigger] start_at(s, i) == end_at(s, i - 1)
}

/// Where a chain that starts at `base` ends.
pub open spec fn reach<T>(s: Seq<AlignedSegment<T>>, base: int) -> int {
    if s.len() == 0 {
        base
    } else {
        end_at(s, s.len() - 1)
    }
}

/// The segments cover `[0, extent)` with no gap: each alignment is where the previous
/// segment ends, and the first is zero.
pub open spec fn contiguous<T>(s: Seq<AlignedSegment<T>>) -> bool {
    chained(s, 0)
}

/// The length of the whole.
pub open spec fn extent<T>(s: Seq<AlignedSegment<T>>) -> int {
    reach(s, 0)
}

/// The (length, value) pairs, in order.
pub open spec fn pieces<T>(s: Seq<AlignedSegment<T>>) -> Seq<(nat, T)> {
    s.map_values(|a: AlignedSegment<T>| (a.spec_length(), a.spec_value()))
}

pub open spec fn sum_lengths<T>(p: Seq<(nat, T)>) -> nat
    decreases p.len(),
{
    if p.len() == 0 {
        0
    } else {
        sum_lengths(p.drop_last()) + p.last().0
    }
}

/// `p` is the index of the first segment that ends after `x`: all before it end at or
/// before `x`, all from it on end after `x`.
pub open spec fn is_partition_point<T>(s: Seq<AlignedSegment<T>>, x: int, p: int) -> bool {
    &&& 0 <= p <= s.len()
    &&& forall|j: int| 0 <= j < p ==> #[trigger] end_at(s, j) <= x
    &&& forall|j: int| p <= j < s.len() ==> x < #[trigger] end_at(s, j)
}

/// The index of the segment that covers `x`, or the count of segments when `x` is at or
/// past the end.
pub open spec fn index_at<T>(s: Seq<AlignedSegment<T>>, x: int) -> int {
    choose|p: int| is_partition_point(s, x, p)
}

/// Segment `i` covers `x`: it starts at or before `x` and ends after it.
pub open spec fn covers<T>(s: Seq<AlignedSegment<T>>, i: int, x: int) -> bool {
    0 <= i < s.len() && start_at(s, i) <= x < end_at(s, i)
}

/// The pairs that cover `[0, x)`: the segments before the one covering `x`, and that one cut
/// to end at `x` unless it starts there.
pub open spec fn head_until<T>(s: Seq<AlignedSegment<T>>, x: int) -> Seq<(nat, T)> {
    let i = index_at(s, x);
    if i < s.len() && start_at(s, i) < x {
        pieces(s).take(i).push(((x - start_at(s, i)) as nat, s[i].spec_value()))
    } else {
        pieces(s).take(i)
    }
}

/// The pairs that cover `[x, extent)`: the segment covering `x` cut to start at `x`, and
/// those after it. Empty when `x` is at or past the end.
pub open spec fn tail_from<T>(s: Seq<AlignedSegment<T>>, x: int) -> Seq<(nat, T)> {
    let i = index_at(s, x);
    if i < s.len() {
        seq![((end_at(s, i) - x) as nat, s[i].spec_value())] + pieces(s).skip(i + 1)
    } else {
        Seq::empty()
    }
}

/// `[a, b)` given over to `value`, the rest kept.
pub open spec fn overwritten<T>(s: Seq<AlignedSegment<T>>, a: int, b: int, value: T) -> Seq<
    (nat, T),
> {
    head_until(s, a).push(((b - a) as nat, value)) + tail_from(s, b)
}

/// The segment covering `x` cut in two at `x`, both parts keeping its value.
pub open spec fn split_pieces<T>(s: Seq<AlignedSegment<T>>, x: int) -> Seq<(nat, T)> {
    let i = index_at(s, x);
    pieces(s).take(i) + seq![
        ((x - start_at(s, i)) as nat, s[i].spec_value()),
        ((end_at(s, i) - x) as nat, s[i].spec_value()),
    ] + pieces(s).skip(i + 1)
}

/// Runs of neighbours with equal values joined into one pair each.
pub open spec fn merged<T>(p: Seq<(nat, T)>) -> Seq<(nat, T)>
    decreases p.len(),
{
    if p.len() == 0 {
        p
    } else {
        let m = merged(p.drop_last());
        let x = p.last();
        if m.len() > 0 && m.last().1 == x.1 {
            m.update(m.len() - 1, ((m.last().0 + x.0) as nat, x.1))
        } else {
            m.push(x)
        }
    }
}

/// The pairs of positive length, in order.
pub open spec fn without_empty<T>(p: Seq<(nat, T)>) -> Seq<(nat, T)>
    decreases p.len(),
{
    if p.len() == 0 {
        p
    } else if p.last().0 > 0 {
        without_empty(p.drop_last()).push(p.last())
    } else {
        without_empty(p.drop_last())
    }
}

/// Where a range given as optional bounds starts: at zero when unbounded.
pub open spec fn range_start(start: Option<u64>) -> int {
    match start {
        Some(a) => a as int,
        None => 0,
    }
}

/// Where a range given as optional bounds ends: at `total` when unbounded.
pub open spec fn range_end(end: Option<u64>, total: int) -> int {
    match end {
        Some(b) => b as int,
        None => total,
    }
}

/// `b` is `a`, but for the value at `k`, which is a clone of `a`'s.
pub open spec fn same_but_clone_at<T: Clone>(a: Seq<(nat, T)>, b: Seq<(nat, T)>, k: int) -> bool {
    &&& a.len() == b.len()
    &&& forall|j: int| 0 <= j < a.len() && j != k ==> #[trigger] b[j] == a[j]
    &&& (0 <= k < a.len() ==> b[k].0 == a[k].0 && cloned(a[k].1, b[k].1))
}

pub proof fn lemma_same_but_clone_refl<T: Clone>(a: Seq<(nat, T)>, k: int)
    ensures
        same_but_clone_at(a, a, k),
{
}

/// Past the end, the partition point is the count of segments.
pub proof fn lemma_index_past_end<T>(s: Seq<AlignedSegment<T>>, x: int)
    requires
        contiguous(s),
        extent(s) <= x,
    ensures
        index_at(s, x) == s.len(),
{
    assert forall|j: int| 0 <= j < s.len() implies #[trigger] end_at(s, j) <= x by {
        lemma_within_reach(s, 0, j);
    }
    lemma_partition_point(s, x, s.len() as int);
}

pub proof fn lemma_chain_order<T>(s: Seq<AlignedSegment<T>>, base: int, i: int, j: int)
    requires
        chained(s, base),
        0 <= i < j < s.len(),
    ensures
        end_at(s, i) <= start_at(s, j),
    decreases j - i,
{
    if j > i + 1 {
        lemma_chain_order(s, base, i, j - 1);
        assert(start_at(s, j) == end_at(s, j - 1));
    } else {
        assert(start_at(s, j) == end_at(s, j - 1));
    }
}

/// Every segment of a chain lies between its base and its reach.
pub proof fn lemma_within_reach<T>(s: Seq<AlignedSegment<T>>, base: int, i: int)
    requires
        chained(s, base),
        0 <= i < s.len(),
    ensures
        base <= start_at(s, i),
        end_at(s, i) <= reach(s, base),
{
    if i > 0 {
        lemma_chain_order(s, base, 0, i);
    }
    if i < s.len() - 1 {
        lemma_chain_order(s, base, i, s.len() - 1);
    }
}

pub proof fn lemma_partition_point_unique<T>(s: Seq<AlignedSegment<T>>, x: int, p: int, q: int)
    requires
        is_partition_point(s, x, p),
        is_partition_point(s, x, q),
    ensures
        p == q,
{
    if p < q {
        assert(end_at(s, p) <= x);
    } else if q < p {
        assert(end_at(s, q) <= x);
    }
}

/// What a partition point says of a contiguous sequence: it is `index_at`, and it is the
/// covering segment when `x` lies before the end.
pub proof fn lemma_partition_point<T>(s: Seq<AlignedSegment<T>>, x: int, p: int)
    requires
        contiguous(s),
        0 <= x,
        is_partition_point(s, x, p),
    ensures
        index_at(s, x) == p,
        p < s.len() <==> x < extent(s),
        p < s.len() ==> covers(s, p, x),
{
    lemma_partition_point_unique(s, x, p, index_at(s, x));
    if p < s.len() {
        lemma_within_reach(s, 0, p);
        if p > 0 {
            assert(start_at(s, p) == end_at(s, p - 1));
        }
    } else if s.len() > 0 {
        assert(end_at(s, s.len() - 1) <= x);
    }
}

/// A covering segment is the partition point.
pub proof fn lemma_covers_is_partition_point<T>(s: Seq<AlignedSegment<T>>, x: int, i: int)
    requires
        contiguous(s),
        covers(s, i, x),
    ensures
        is_partition_point(s, x, i),
        index_at(s, x) == i,
{
    assert forall|j: int| 0 <= j < i implies #[trigger] end_at(s, j) <= x by {
        lemma_chain_order(s, 0, j, i);
    }
    assert forall|j: int| i <= j < s.len() implies x < #[trigger] end_at(s, j) by {
        if i < j {
            lemma_chain_order(s, 0, i, j);
        }
    }
    lemma_partition_point(s, x, i);
}

pub proof fn lemma_chain_take<T>(s: Seq<AlignedSegment<T>>, base: int, k: int)
    requires
        chained(s, base),
        0 <= k <= s.len(),
    ensures
        chained(s.take(k), base),
        k > 0 ==> reach(s.take(k), base) == end_at(s, k - 1),
{
    let t = s.take(k);
    assert forall|i: int| 0 < i < t.len() implies #[trigger] start_at(t, i) == end_at(t, i - 1) by {
        assert(start_at(s, i) == end_at(s, i - 1));
    }
}

pub proof fn lemma_chain_skip<T>(s: Seq<AlignedSegment<T>>, base: int, k: int)
    requires
        chained(s, base),
        0 <= k <= s.len(),
    ensures
        chained(s.skip(k), if k == 0 { base } else { end_at(s, k - 1) }),
        k < s.len() ==> reach(s.skip(k), start_at(s, k)) == reach(s, base),
{
    let t = s.skip(k);
    assert forall|i: int| 0 < i < t.len() implies #[trigger] start_at(t, i) == end_at(t, i - 1) by {
        assert(start_at(s, k + i) == end_at(s, k + i - 1));
    }
    if 0 < k < s.len() {
        assert(start_at(s, k) == end_at(s, k - 1));
    }
}

pub proof fn lemma_chain_concat<T>(
    a: Seq<AlignedSegment<T>>,
    b: Seq<AlignedSegment<T>>,
    base: int,
)
    requires
        chained(a, base),
        chained(b, reach(a, base)),
    ensures
        chained(a + b, base),
        reach(a + b, base) == reach(b, reach(a, base)),
{
    let c = a + b;
    assert forall|i: int| 0 < i < c.len() implies #[trigger] start_at(c, i) == end_at(c, i - 1) by {
        if i < a.len() {
            assert(start_at(a, i) == end_at(a, i - 1));
        } else if i > a.len() {
            assert(start_at(b, i - a.len()) == end_at(b, i - a.len() - 1));
        }
    }
}

pub proof fn lemma_chain_push<T>(s: Seq<AlignedSegment<T>>, base: int, a: AlignedSegment<T>)
    requires
        chained(s, base),
        a.spec_alignment() == reach(s, base),
    ensures
        chained(s.push(a), base),
        reach(s.push(a), base) == a.spec_alignment() + a.spec_length(),
{
    let t = s.push(a);
    assert forall|i: int| 0 < i < t.len() implies #[trigger] start_at(t, i) == end_at(t, i - 1) by {
        if i < s.len() {
            assert(start_at(s, i) == end_at(s, i - 1));
        }
    }
}

/// The reach of a chain is its base plus the sum of its lengths.
pub proof fn lemma_reach_is_sum<T>(s: Seq<AlignedSegment<T>>, base: int)
    requires
        chained(s, base),
    ensures
        reach(s, base) == base + sum_lengths(pieces(s)),
    decreases s.len(),
{
    if s.len() > 0 {
        let t = s.drop_last();
        lemma_chain_take(s, base, s.len() - 1);
        assert(t =~= s.take(s.len() - 1));
        lemma_reach_is_sum(t, base);
        assert(pieces(s).drop_last() =~= pieces(t));
        if s.len() > 1 {
            assert(start_at(s, s.len() - 1) == end_at(s, s.len() - 2));
        }
    }
}

/// Replacing `s[i..j]` by a chain that starts where `s[i]` started and ends where `s[j]`
/// starts keeps the whole contiguous.
pub proof fn lemma_splice<T>(
    s: Seq<AlignedSegment<T>>,
    i: int,
    j: int,
    mid: Seq<AlignedSegment<T>>,
)
    requires
        contiguous(s),
        0 <= i <= j <= s.len(),
        chained(mid, reach(s.take(i), 0)),
        j < s.len() ==> reach(mid, reach(s.take(i), 0)) == start_at(s, j),
    ensures
        contiguous(s.take(i) + mid + s.skip(j)),
        extent(s.take(i) + mid + s.skip(j)) == if j < s.len() {
            extent(s)
        } else {
            reach(mid, reach(s.take(i), 0))
        },
        pieces(s.take(i) + mid + s.skip(j)) == pieces(s).take(i) + pieces(mid) + pieces(s).skip(
            j,
        ),
{
    lemma_chain_take(s, 0, i);
    lemma_chain_concat(s.take(i), mid, 0);
    let base = reach(s.take(i), 0);
    lemma_chain_skip(s, 0, j);
    if 0 < j < s.len() {
        assert(start_at(s, j) == end_at(s, j - 1));
    }
    if j == 0 {
        if s.len() > 0 {
            assert(start_at(s, 0) == 0);
        }
    }
    if j == s.len() {
        assert(s.skip(j) =~= Seq::<AlignedSegment<T>>::empty());
    }
    lemma_chain_concat(s.take(i) + mid, s.skip(j), 0);
    assert(pieces(s.take(i) + mid + s.skip(j)) =~= pieces(s).take(i) + pieces(mid) + pieces(
        s,
    ).skip(j));
}

/// Where the segments before `i` end: where segment `i` starts.
pub proof fn lemma_reach_take<T>(s: Seq<AlignedSegment<T>>, i: int)
    requires
        contiguous(s),
        0 <= i < s.len(),
    ensures
        reach(s.take(i), 0) == start_at(s, i),
{
    lemma_chain_take(s, 0, i);
    if i > 0 {
        assert(start_at(s, i) == end_at(s, i - 1));
    }
}

/// Segments at the same places with the same lengths are contiguous together.
pub proof fn lemma_same_layout<T>(a: Seq<AlignedSegment<T>>, b: Seq<AlignedSegment<T>>)
    requires
        contiguous(a),
        a.len() == b.len(),
        forall|i: int|
            0 <= i < a.len() ==> #[trigger] b[i] == b[i] && b[i].spec_alignment()
                == a[i].spec_alignment() && b[i].spec_length() == a[i].spec_length(),
    ensures
        contiguous(b),
        extent(b) == extent(a),
{
    assert forall|i: int| 0 < i < b.len() implies #[trigger] start_at(b, i) == end_at(b, i - 1) by {
        assert(start_at(a, i) == end_at(a, i - 1));
        assert(b[i - 1].spec_length() == a[i - 1].spec_length());
    }
    if a.len() > 0 {
        assert(b[a.len() - 1].spec_length() == a[a.len() - 1].spec_length());
        assert(b[0].spec_alignment() == a[0].spec_alignment());
    }
}

pub proof fn lemma_sum_single<T>(x: (nat, T))
    ensures
        sum_lengths(seq![x]) == x.0,
{
    assert(seq![x].drop_last() =~= Seq::<(nat, T)>::empty());
    assert(sum_lengths(Seq::<(nat, T)>::empty()) == 0);
    assert(seq![x].last() == x);
}

pub proof fn lemma_sum_concat<T>(a: Seq<(nat, T)>, b: Seq<(nat, T)>)
    ensures
        sum_lengths(a + b) == sum_lengths(a) + sum_lengths(b),
    decreases b.len(),
{
    if b.len() > 0 {
        assert((a + b).drop_last() =~= a + b.drop_last());
        lemma_sum_concat(a, b.drop_last());
    } else {
        assert(a + b =~= a);
    }
}

} // verus!
