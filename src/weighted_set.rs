//! Weighted raffles: a collection of values, each with a positive weight, from which a
//! number in `[0, total_weight)` picks one value with chance proportional to its weight.
//!
//! Entry `i` owns the numbers `[partition_weight, partition_weight + weight)`, where its
//! partition weight is the sum of the weights before it.

use vstd::prelude::*;

verus! {

/// Why a weighted item could not be made.
#[derive(Debug, PartialEq, Eq, Structural)]
pub enum WeightedCollectionError {
    /// Weight must not be zero in this context.
    ZeroWeight,
}

/// A value, its weight, and its partition weight: the item as a weighted collection stores it.
#[derive(Debug)]
pub struct WeightedEntry<T> {
    value: T,
    weight: usize,
    partition_weight: usize,
}

impl<T> WeightedEntry<T> {
    pub closed spec fn spec_value(&self) -> T {
        self.value
    }

    pub closed spec fn spec_weight(&self) -> nat {
        self.weight as nat
    }

    /// The first number that picks this entry.
    pub closed spec fn spec_partition_weight(&self) -> nat {
        self.partition_weight as nat
    }

    pub fn into_inner(self) -> (r: T)
        ensures
            r == self.spec_value(),
    {
        self.value
    }

    pub fn into_partition_weight(self) -> (r: usize)
        ensures
            r == self.spec_partition_weight(),
    {
        self.partition_weight
    }

    pub fn into_weight(self) -> (r: usize)
        ensures
            r == self.spec_weight(),
    {
        self.weight
    }

    pub fn value(&self) -> (r: &T)
        ensures
            *r == self.spec_value(),
    {
        &self.value
    }

    pub fn weight(&self) -> (r: usize)
        ensures
            r == self.spec_weight(),
    {
        self.weight
    }

    pub fn partition_weight(&self) -> (r: usize)
        ensures
            r == self.spec_partition_weight(),
    {
        self.partition_weight
    }
}

/// A value and a positive weight.
#[derive(Debug)]
pub struct WeightedItem<T> {
    value: T,
    weight: usize,
}

impl<T> WeightedItem<T> {
    #[verifier::type_invariant]
    spec fn positive(self) -> bool {
        self.weight > 0
    }

    pub closed spec fn spec_value(&self) -> T {
        self.value
    }

    pub closed spec fn spec_weight(&self) -> nat {
        self.weight as nat
    }

    pub fn into_inner(self) -> (r: T)
        ensures
            r == self.spec_value(),
    {
        self.value
    }

    pub fn into_weight(self) -> (r: usize)
        ensures
            r == self.spec_weight(),
            r > 0,
    {
        proof {
            use_type_invariant(&self);
        }
        self.weight
    }

    pub fn new(value: T, weight: usize) -> (r: Self)
        requires
            weight > 0,
        ensures
            r.spec_value() == value,
            r.spec_weight() == weight,
    {
        WeightedItem { value, weight }
    }

    /// An item of the given weight, or `ZeroWeight` when the weight is zero.
    pub fn try_new(value: T, weight: usize) -> (r: Result<Self, WeightedCollectionError>)
        ensures
            weight == 0 ==> r == Err::<Self, WeightedCollectionError>(
                WeightedCollectionError::ZeroWeight,
            ),
            weight > 0 ==> (r matches Ok(item) && item.spec_value() == value && item.spec_weight()
                == weight),
    {
        if weight == 0 {
            Err(WeightedCollectionError::ZeroWeight)
        } else {
            Ok(WeightedItem { value, weight })
        }
    }

    /// An item of weight one.
    pub fn from_value(value: T) -> (r: Self)
        ensures
            r.spec_value() == value,
            r.spec_weight() == 1,
    {
        WeightedItem { value, weight: 1 }
    }

    /// The value and the weight of an entry, without its place.
    pub fn from_entry(entry: WeightedEntry<T>) -> (r: Self)
        requires
            entry.spec_weight() > 0,
        ensures
            r.spec_value() == entry.spec_value(),
            r.spec_weight() == entry.spec_weight(),
    {
        WeightedItem { value: entry.value, weight: entry.weight }
    }
}

/// Where entry `i` starts.
pub open spec fn first_of<T>(e: Seq<WeightedEntry<T>>, i: int) -> int {
    e[i].spec_partition_weight() as int
}

/// One past the last number of entry `i`.
pub open spec fn past_of<T>(e: Seq<WeightedEntry<T>>, i: int) -> int {
    (e[i].spec_partition_weight() + e[i].spec_weight()) as int
}

/// The entries own consecutive runs of numbers from zero on, each a run of its positive
/// weight, and `total` is where the last run ends.
pub open spec fn weights_laid_out<T>(e: Seq<WeightedEntry<T>>, total: int) -> bool {
    &&& forall|i: int| 0 <= i < e.len() ==> #[trigger] e[i].spec_weight() > 0
    &&& (e.len() > 0 ==> first_of(e, 0) == 0)
    &&& forall|i: int| 0 < i < e.len() ==> #[trigger] first_of(e, i) == past_of(e, i - 1)
    &&& total == if e.len() == 0 {
        0
    } else {
        past_of(e, e.len() - 1)
    }
}

/// Entry `i` is picked by the number `w`.
pub open spec fn picks<T>(e: Seq<WeightedEntry<T>>, i: int, w: int) -> bool {
    0 <= i < e.len() && first_of(e, i) <= w < past_of(e, i)
}

pub proof fn lemma_runs_ordered<T>(e: Seq<WeightedEntry<T>>, total: int, i: int, j: int)
    requires
        weights_laid_out(e, total),
        0 <= i < j < e.len(),
    ensures
        past_of(e, i) <= first_of(e, j),
    decreases j - i,
{
    assert(first_of(e, j) == past_of(e, j - 1));
    if j > i + 1 {
        lemma_runs_ordered(e, total, i, j - 1);
    }
}

pub proof fn lemma_runs_within_total<T>(e: Seq<WeightedEntry<T>>, total: int, i: int)
    requires
        weights_laid_out(e, total),
        0 <= i < e.len(),
    ensures
        past_of(e, i) <= total,
{
    if i < e.len() - 1 {
        lemma_runs_ordered(e, total, i, e.len() - 1);
    }
}

/// Implemented by [`WeightedVec`].
pub trait WeightedCollection<T> {
    /// The stored entries, in order.
    spec fn entries(&self) -> Seq<WeightedEntry<T>>;

    spec fn spec_total_weight(&self) -> nat;

    /// The entries' runs are laid out from zero to the total weight.
    open spec fn well_formed(&self) -> bool {
        weights_laid_out(self.entries(), self.spec_total_weight() as int)
    }

    /// The entry picked by `partition_weight`, or `None` when it is at or past the total
    /// weight.
    fn raffle(&self, partition_weight: usize) -> (r: Option<&WeightedEntry<T>>)
        requires
            self.well_formed(),
        ensures
            partition_weight >= self.spec_total_weight() ==> r is None,
            partition_weight < self.spec_total_weight() ==> (r matches Some(e) && exists|i: int|
                picks(self.entries(), i, partition_weight as int) && #[trigger] self.entries()[i]
                    == *e),
    ;

    fn total_weight(&self) -> (r: usize)
        ensures
            r == self.spec_total_weight(),
    ;
}

pub trait WeightedCollectionMut<T>: WeightedCollection<T> {
    fn clear(&mut self)
        ensures
            final(self).entries().len() == 0,
            final(self).spec_total_weight() == 0,
    ;

    /// Removes the last entry and hands back its value and weight.
    fn pop(&mut self) -> (r: Option<WeightedItem<T>>)
        requires
            old(self).well_formed(),
        ensures
            final(self).well_formed(),
            old(self).entries().len() == 0 ==> r is None && final(self).entries() == old(
                self,
            ).entries(),
            old(self).entries().len() > 0 ==> (r matches Some(item) && item.spec_value() == old(
                self,
            ).entries().last().spec_value() && item.spec_weight() == old(
                self,
            ).entries().last().spec_weight() && final(self).entries() == old(
                self,
            ).entries().drop_last() && final(self).spec_total_weight() == old(
                self,
            ).spec_total_weight() - item.spec_weight()),
    ;

    /// Appends an entry whose run starts at the old total weight.
    fn push(&mut self, item: WeightedItem<T>)
        requires
            old(self).well_formed(),
            old(self).spec_total_weight() + item.spec_weight() <= usize::MAX,
        ensures
            final(self).well_formed(),
            final(self).entries().len() == old(self).entries().len() + 1,
            final(self).entries().drop_last() == old(self).entries(),
            final(self).entries().last().spec_value() == item.spec_value(),
            final(self).entries().last().spec_weight() == item.spec_weight(),
            final(self).entries().last().spec_partition_weight() == old(self).spec_total_weight(),
            final(self).spec_total_weight() == old(self).spec_total_weight() + item.spec_weight(),
    ;

    /// The value of the entry picked by `partition_weight`, open to change.
    fn raffle_mut(&mut self, partition_weight: usize) -> (r: Option<&mut T>)
        requires
            old(self).well_formed(),
        ensures
            partition_weight >= old(self).spec_total_weight() ==> r is None && final(self).entries()
                == old(self).entries() && final(self).spec_total_weight() == old(
                self,
            ).spec_total_weight(),
            partition_weight < old(self).spec_total_weight() ==> (r matches Some(v) && exists|i: int|
                picks(old(self).entries(), i, partition_weight as int) && *v == old(
                self,
            ).entries()[i].spec_value() && final(self).entries().len() == old(self).entries().len()
                && final(self).spec_total_weight() == old(self).spec_total_weight() && (forall|
                j: int,
            |
                0 <= j < old(self).entries().len() && j != i ==> #[trigger] final(self).entries()[j]
                    == old(self).entries()[j]) && final(self).entries()[i].spec_value() == *final(v)
                && final(self).entries()[i].spec_weight() == old(self).entries()[i].spec_weight()
                && final(self).entries()[i].spec_partition_weight() == old(
                self,
            ).entries()[i].spec_partition_weight()),
    ;
}

/// A weighted collection stored in a `Vec`.
#[derive(Debug)]
pub struct WeightedVec<T> {
    total_weight: usize,
    vec: Vec<WeightedEntry<T>>,
}

impl<T> WeightedVec<T> {
    pub fn new() -> (r: Self)
        ensures
            r.well_formed(),
            r.entries().len() == 0,
    {
        WeightedVec { vec: Vec::new(), total_weight: 0 }
    }

    pub fn with_capacity(capacity: usize) -> (r: Self)
        ensures
            r.well_formed(),
            r.entries().len() == 0,
    {
        WeightedVec { vec: Vec::with_capacity(capacity), total_weight: 0 }
    }

    /// `Vec::reserve`.
    pub fn reserve(&mut self, additional: usize)
        ensures
            final(self).entries() == old(self).entries(),
            final(self).spec_total_weight() == old(self).spec_total_weight(),
    {
        self.vec.reserve(additional)
    }

    /// `Vec::reserve_exact`.
    pub fn reserve_exact(&mut self, additional: usize)
        ensures
            final(self).entries() == old(self).entries(),
            final(self).spec_total_weight() == old(self).spec_total_weight(),
    {
        vec_reserve_exact(&mut self.vec, additional)
    }

    /// The index of the first entry whose run ends after `partition_weight`.
    fn partition_point(&self, partition_weight: usize) -> (r: usize)
        requires
            self.well_formed(),
        ensures
            r <= self.entries().len(),
            r < self.entries().len() <==> partition_weight < self.spec_total_weight(),
            r < self.entries().len() ==> picks(self.entries(), r as int, partition_weight as int),
    {
        let ghost e = self.entries();
        let ghost total = self.spec_total_weight() as int;
        let mut lo: usize = 0;
        let mut hi: usize = self.vec.len();
        while lo < hi
            invariant
                self.well_formed(),
                e == self.entries(),
                total == self.spec_total_weight(),
                0 <= lo <= hi <= e.len(),
                forall|j: int| 0 <= j < lo ==> #[trigger] past_of(e, j) <= partition_weight,
                forall|j: int| hi <= j < e.len() ==> partition_weight < #[trigger] past_of(e, j),
            decreases hi - lo,
        {
            let mid = lo + (hi - lo) / 2;
            proof {
                lemma_runs_within_total(e, total, mid as int);
            }
            if self.vec[mid].partition_weight + self.vec[mid].weight <= partition_weight {
                assert forall|j: int| 0 <= j < mid + 1 implies #[trigger] past_of(e, j)
                    <= partition_weight by {
                    if j < mid {
                        lemma_runs_ordered(e, total, j, mid as int);
                    }
                }
                lo = mid + 1;
            } else {
                assert forall|j: int| mid <= j < e.len() implies partition_weight < #[trigger] past_of(
                    e,
                    j,
                ) by {
                    if mid < j {
                        lemma_runs_ordered(e, total, mid as int, j);
                    }
                }
                hi = mid;
            }
        }
        proof {
            if lo < e.len() {
                if lo > 0 {
                    assert(first_of(e, lo as int) == past_of(e, lo - 1));
                }
            } else if e.len() > 0 {
                assert(past_of(e, e.len() - 1) <= partition_weight);
            }
        }
        lo
    }
}

/// Relies on `Vec::reserve_exact`: it changes the capacity only, never the elements.
#[verifier::external_body]
fn vec_reserve_exact<X>(v: &mut Vec<X>, additional: usize)
    ensures
        final(v)@ == old(v)@,
{
    v.reserve_exact(additional)
}

impl<T> WeightedCollection<T> for WeightedVec<T> {
    closed spec fn entries(&self) -> Seq<WeightedEntry<T>> {
        self.vec@
    }

    closed spec fn spec_total_weight(&self) -> nat {
        self.total_weight as nat
    }

    fn raffle(&self, partition_weight: usize) -> (r: Option<&WeightedEntry<T>>) {
        let p = self.partition_point(partition_weight);
        if p < self.vec.len() {
            Some(&self.vec[p])
        } else {
            None
        }
    }

    fn total_weight(&self) -> (r: usize) {
        self.total_weight
    }
}

impl<T> WeightedCollectionMut<T> for WeightedVec<T> {
    fn clear(&mut self) {
        self.total_weight = 0;
        self.vec.clear();
    }

    fn pop(&mut self) -> (r: Option<WeightedItem<T>>) {
        let ghost e = self.vec@;
        match self.vec.pop() {
            None => None,
            Some(entry) => {
                proof {
                    let t = e.drop_last();
                    assert(self.vec@ =~= t);
                    if t.len() > 0 {
                        assert(first_of(e, e.len() - 1) == past_of(e, e.len() - 2));
                    }
                    assert forall|i: int| 0 < i < t.len() implies #[trigger] first_of(t, i)
                        == past_of(t, i - 1) by {
                        assert(first_of(e, i) == past_of(e, i - 1));
                    }
                    assert(e[e.len() - 1].spec_weight() > 0);
                }
                self.total_weight = entry.partition_weight;
                Some(WeightedItem { value: entry.value, weight: entry.weight })
            },
        }
    }

    fn push(&mut self, item: WeightedItem<T>) {
        proof {
            use_type_invariant(&item);
        }
        let ghost e = self.vec@;
        let entry = WeightedEntry {
            value: item.value,
            weight: item.weight,
            partition_weight: self.total_weight,
        };
        self.vec.push(entry);
        self.total_weight = self.total_weight + item.weight;
        proof {
            let t = self.vec@;
            assert(t.drop_last() =~= e);
            assert forall|i: int| 0 < i < t.len() implies #[trigger] first_of(t, i) == past_of(
                t,
                i - 1,
            ) by {
                if i < e.len() {
                    assert(first_of(e, i) == past_of(e, i - 1));
                }
            }
        }
    }

    fn raffle_mut(&mut self, partition_weight: usize) -> (r: Option<&mut T>) {
        let p = self.partition_point(partition_weight);
        if p < self.vec.len() {
            Some(&mut self.vec[p].value)
        } else {
            None
        }
    }
}

impl<T> From<T> for WeightedItem<T> {
    /// An item of weight one.
    fn from(value: T) -> (r: Self) {
        WeightedItem { value, weight: 1 }
    }
}

impl<T> vstd::std_specs::convert::FromSpecImpl<T> for WeightedItem<T> {
    open spec fn obeys_from_spec() -> bool {
        true
    }

    closed spec fn from_spec(value: T) -> Self {
        WeightedItem { value, weight: 1 }
    }
}

impl<T: Default> Default for WeightedItem<T> {
    /// A default value of weight one.
    fn default() -> (r: Self)
        ensures
            call_ensures(T::default, (), r.spec_value()),
            r.spec_weight() == 1,
    {
        WeightedItem { value: T::default(), weight: 1 }
    }
}

impl<T: Clone> Clone for WeightedItem<T> {
    fn clone(&self) -> (r: Self)
        ensures
            cloned(self.spec_value(), r.spec_value()),
            r.spec_weight() == self.spec_weight(),
    {
        proof {
            use_type_invariant(self);
        }
        WeightedItem { value: self.value.clone(), weight: self.weight }
    }
}

impl<T> Default for WeightedVec<T> {
    fn default() -> (r: Self)
        ensures
            r.well_formed(),
            r.entries().len() == 0,
    {
        WeightedVec::new()
    }
}

} // verus!
