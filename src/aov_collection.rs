//! "Array of options as value" collections: each key owns a fixed-size array of optional
//! values, so one key can hold up to `SIZE` values in numbered slots.
//!
//! A key with no array reads as an array of `None`s.

use vstd::prelude::*;

verus! {

/// An array of `SIZE` empty slots.
pub open spec fn empty_slots<V>(size: int) -> Seq<Option<V>> {
    Seq::new(size as nat, |i: int| None::<V>)
}

/// Reading side of an array-of-options collection.
pub trait AovCollection<K, V, const SIZE: usize> {
    /// The slots of a key: its array, or empty slots when it has none.
    spec fn spec_slots(&self, key: K) -> Seq<Option<V>>;

    /// Whether the key has an array of its own.
    spec fn spec_has_array(&self, key: K) -> bool;

    /// Whether the slot holds a value.
    fn aov_contains(&self, index: usize, key: &K) -> (r: bool)
        requires
            index < SIZE,
        ensures
            r == self.spec_slots(*key)[index as int] is Some,
    ;

    /// The value in the slot.
    fn aov_get(&self, index: usize, key: &K) -> (r: Option<&V>)
        requires
            index < SIZE,
        ensures
            self.spec_slots(*key)[index as int] is None ==> r is None,
            self.spec_slots(*key)[index as int] matches Some(v) ==> r == Some(&v),
    ;

    /// The key's array, if it has one.
    fn aov_get_array(&self, key: &K) -> (r: Option<&[Option<V>; SIZE]>)
        ensures
            r is Some <==> self.spec_has_array(*key),
            r matches Some(a) ==> a@ == self.spec_slots(*key),
    ;
}

/// Changing side of an array-of-options collection.
pub trait AovCollectionMut<K, V, const SIZE: usize>: AovCollection<K, V, SIZE> {
    /// The value in the slot, open to change.
    fn aov_get_mut(&mut self, index: usize, key: &K) -> (r: Option<&mut V>)
        requires
            index < SIZE,
        ensures
            old(self).spec_slots(*key)[index as int] is None ==> r is None && forall|k: K|
                #[trigger] final(self).spec_slots(k) == old(self).spec_slots(k),
            old(self).spec_slots(*key)[index as int] matches Some(v) ==> (r matches Some(m) && *m
                == v && final(self).spec_slots(*key) == old(self).spec_slots(*key).update(
                index as int,
                Some(*final(m)),
            ) && forall|k: K| k != *key ==> #[trigger] final(self).spec_slots(k) == old(
                self,
            ).spec_slots(k)),
    ;

    /// Puts a value in the slot and hands back the one it held.
    fn aov_insert(&mut self, index: usize, key: &K, value: V) -> (r: Option<V>)
        requires
            index < SIZE,
        ensures
            r == old(self).spec_slots(*key)[index as int],
            final(self).spec_slots(*key) == old(self).spec_slots(*key).update(
                index as int,
                Some(value),
            ),
            forall|k: K| k != *key ==> #[trigger] final(self).spec_slots(k) == old(self).spec_slots(k),
    ;

    /// Empties the slot and hands back the value it held.
    fn aov_remove(&mut self, index: usize, key: &K) -> (r: Option<V>)
        requires
            index < SIZE,
        ensures
            r == old(self).spec_slots(*key)[index as int],
            final(self).spec_slots(*key) == old(self).spec_slots(*key).update(index as int, None),
            forall|k: K| k != *key ==> #[trigger] final(self).spec_slots(k) == old(self).spec_slots(k),
    ;

    /// Removes the key's array and hands it back, if it has one.
    fn aov_remove_array(&mut self, key: &K) -> (r: Option<[Option<V>; SIZE]>)
        ensures
            r is Some <==> old(self).spec_has_array(*key),
            r matches Some(a) ==> a@ == old(self).spec_slots(*key),
            final(self).spec_slots(*key) == empty_slots::<V>(SIZE as int),
            forall|k: K| k != *key ==> #[trigger] final(self).spec_slots(k) == old(self).spec_slots(k),
    ;
}

/// An array-of-options collection keyed by index: key `k` is the `k`th array. Arrays of
/// empty slots at the end are dropped.
pub type AovVec<T, const SIZE: usize> = Vec<[Option<T>; SIZE]>;

/// Whether every slot is empty.
fn all_empty<T, const SIZE: usize>(a: &[Option<T>; SIZE]) -> (r: bool)
    ensures
        r == (a@ == empty_slots::<T>(SIZE as int)),
{
    let mut i: usize = 0;
    while i < SIZE
        invariant
            0 <= i <= SIZE,
            a@.len() == SIZE,
            forall|j: int| 0 <= j < i ==> #[trigger] a@[j] is None,
        decreases SIZE - i,
    {
        if a[i].is_some() {
            return false;
        }
        i = i + 1;
    }
    assert(a@ =~= empty_slots::<T>(SIZE as int));
    true
}

/// Drops the arrays of empty slots at the end.
fn trim_empty_tail<T, const SIZE: usize>(v: &mut AovVec<T, SIZE>)
    ensures
        final(v)@.len() <= old(v)@.len(),
        forall|k: int| 0 <= k < final(v)@.len() ==> #[trigger] final(v)@[k] == old(v)@[k],
        forall|k: int|
            final(v)@.len() <= k < old(v)@.len() ==> #[trigger] old(v)@[k]@ == empty_slots::<T>(
                SIZE as int,
            ),
{
    let ghost v0 = v@;
    while v.len() > 0 && all_empty(&v[v.len() - 1])
        invariant
            v@.len() <= v0.len(),
            v@ == v0.take(v@.len() as int),
            forall|k: int| v@.len() <= k < v0.len() ==> #[trigger] v0[k]@ == empty_slots::<T>(
                SIZE as int,
            ),
        decreases v@.len(),
    {
        v.pop();
    }
}

impl<T, const SIZE: usize> AovCollection<usize, T, SIZE> for AovVec<T, SIZE> {
    open spec fn spec_slots(&self, key: usize) -> Seq<Option<T>> {
        if key < self@.len() {
            self@[key as int]@
        } else {
            empty_slots::<T>(SIZE as int)
        }
    }

    open spec fn spec_has_array(&self, key: usize) -> bool {
        key < self@.len()
    }

    fn aov_contains(&self, index: usize, key: &usize) -> (r: bool) {
        self.aov_get(index, key).is_some()
    }

    fn aov_get(&self, index: usize, key: &usize) -> (r: Option<&T>) {
        match self.aov_get_array(key) {
            None => None,
            Some(array) => array[index].as_ref(),
        }
    }

    fn aov_get_array(&self, key: &usize) -> (r: Option<&[Option<T>; SIZE]>) {
        if *key < self.len() {
            Some(&self[*key])
        } else {
            None
        }
    }
}

impl<T: Copy, const SIZE: usize> AovCollectionMut<usize, T, SIZE> for AovVec<T, SIZE> {
    fn aov_get_mut(&mut self, index: usize, key: &usize) -> (r: Option<&mut T>) {
        if *key < self.len() {
            self[*key][index].as_mut()
        } else {
            None
        }
    }

    /// Costs time linear in the gap when the key is past the last array.
    fn aov_insert(&mut self, index: usize, key: &usize, value: T) -> (r: Option<T>) {
        let ghost s0 = *self;
        let ghost v0 = self@;
        if *key < self.len() {
            let old_value = self[*key][index];
            self[*key][index] = Some(value);
            proof {
                assert forall|k: usize| k != *key implies #[trigger] self.spec_slots(k)
                    == s0.spec_slots(k) by {}
            }
            return old_value;
        }
        let empty: [Option<T>; SIZE] = [None; SIZE];
        // bridge the gap with arrays of empty slots
        while self.len() < *key
            invariant
                v0.len() <= self@.len() <= *key,
                forall|k: int| 0 <= k < v0.len() ==> #[trigger] self@[k] == v0[k],
                forall|k: int| v0.len() <= k < self@.len() ==> #[trigger] self@[k]@ == empty_slots::<T>(
                    SIZE as int,
                ),
                empty@ == empty_slots::<T>(SIZE as int),
            decreases *key - self@.len(),
        {
            self.push(empty);
        }
        let mut array: [Option<T>; SIZE] = [None; SIZE];
        array[index] = Some(value);
        self.push(array);
        proof {
            assert(empty@ =~= empty_slots::<T>(SIZE as int));
            assert(self.spec_slots(*key) =~= empty_slots::<T>(SIZE as int).update(
                index as int,
                Some(value),
            ));
            assert forall|k: usize| k != *key implies #[trigger] self.spec_slots(k) == s0.spec_slots(
                k,
            ) by {}
        }
        None
    }

    fn aov_remove(&mut self, index: usize, key: &usize) -> (r: Option<T>) {
        let ghost s0 = *self;
        let ghost v0 = self@;
        if *key >= self.len() {
            return None;
        }
        let removed = self[*key][index];
        self[*key][index] = None;
        let ghost v1 = self@;
        // when the key is the last array, drop the empty arrays this may leave at the end
        if *key == self.len() - 1 {
            trim_empty_tail(self);
        }
        proof {
            assert forall|k: usize| k != *key implies #[trigger] self.spec_slots(k) == s0.spec_slots(
                k,
            ) by {
                if k < v1.len() && k >= self@.len() {
                    assert(v1[k as int]@ == empty_slots::<T>(SIZE as int));
                }
            }
            if *key >= self@.len() {
                assert(v1[*key as int]@ == empty_slots::<T>(SIZE as int));
            }
            assert(self.spec_slots(*key) =~= s0.spec_slots(*key).update(index as int, None));
        }
        removed
    }

    fn aov_remove_array(&mut self, key: &usize) -> (r: Option<[Option<T>; SIZE]>) {
        let ghost s0 = *self;
        let ghost v0 = self@;
        let n = self.len();
        if n == 0 {
            return None;
        }
        let key = *key;
        let last_index = n - 1;
        if key < last_index {
            let removed = self[key];
            self[key] = [None; SIZE];
            proof {
                assert(self.spec_slots(key) =~= empty_slots::<T>(SIZE as int));
                assert forall|k: usize| k != key implies #[trigger] self.spec_slots(k)
                    == s0.spec_slots(k) by {}
            }
            Some(removed)
        } else if key == last_index {
            let removed = self.pop();
            let ghost v1 = self@;
            trim_empty_tail(self);
            proof {
                assert forall|k: usize| k != key implies #[trigger] self.spec_slots(k)
                    == s0.spec_slots(k) by {
                    if k < v1.len() && k >= self@.len() {
                        assert(v1[k as int]@ == empty_slots::<T>(SIZE as int));
                    }
                }
            }
            removed
        } else {
            None
        }
    }
}

} // verus!
