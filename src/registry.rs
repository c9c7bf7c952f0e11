//! Identifiers of the form `source:name` for registered data, and what goes wrong when one
//! is read from text.

use crate::utils::{alpha_numeric_byte, is_word_byte};
use std::sync::Arc;
use vstd::prelude::*;
use vstd::string::{StrSliceExecFns, StringExecFns, StringSliceAdditionalSpecFns};

verus! {

/// Why text is no registry id.
#[derive(Debug, PartialEq, Eq, Structural)]
pub enum RegistryIdError {
    /// A character is not ASCII.
    NotAscii,
    /// A letter is upper case.
    NotLowercase,
    /// There is not exactly one `:` between source and name.
    MissingSeparator,
    /// The source or the name does not start with a lower-case letter.
    BadStart,
    /// The source or the name holds something other than letters, digits and `_`.
    NotAlphaNumeric,
}

/// An id that could not be registered.
#[derive(Debug)]
pub enum RegistryError {
    /// The id is already registered.
    DuplicateId(RegistryId),
}

/// The outcome of registering several items.
#[derive(Debug)]
pub enum RegistryErrors {
    Errors(Vec<RegistryError>),
    /// One entry for each item given, `None` where it was registered.
    OptionalErrors(Vec<Option<RegistryError>>),
}

/// Implemented by data types that can be added to a registry.
pub trait RegistryItem {

}

pub open spec fn is_upper_byte(b: u8) -> bool {
    65 <= b <= 90
}

pub open spec fn is_lower_byte(b: u8) -> bool {
    97 <= b <= 122
}

/// `k` is the place of the one `:` in `b`.
pub open spec fn sole_colon_at(b: Seq<u8>, k: int) -> bool {
    &&& 0 <= k < b.len()
    &&& b[k] == 58
    &&& forall|j: int| 0 <= j < b.len() && j != k ==> #[trigger] b[j] != 58
}

/// The first rule that the bytes of an ASCII text break, read as `source:name`: no
/// upper-case letters; exactly one `:`; source and name start with a lower-case letter;
/// the rest is letters, digits and `_`.
pub open spec fn id_error(b: Seq<u8>) -> Option<RegistryIdError> {
    if exists|i: int| 0 <= i < b.len() && is_upper_byte(#[trigger] b[i]) {
        Some(RegistryIdError::NotLowercase)
    } else if !exists|k: int| sole_colon_at(b, k) {
        Some(RegistryIdError::MissingSeparator)
    } else {
        let k = choose|k: int| sole_colon_at(b, k);
        if !(0 < k && is_lower_byte(b[0]) && k + 1 < b.len() && is_lower_byte(b[k + 1])) {
            Some(RegistryIdError::BadStart)
        } else if exists|i: int| 0 <= i < b.len() && i != k && !is_word_byte(#[trigger] b[i]) {
            Some(RegistryIdError::NotAlphaNumeric)
        } else {
            None
        }
    }
}

/// A unique identifier for a registered data type: a source and a name, written
/// `source:name`.
#[derive(Debug)]
pub struct RegistryId {
    colon: usize,
    string: String,
}

impl RegistryId {
    #[verifier::type_invariant]
    spec fn separated(self) -> bool {
        self.colon < self.string@.len() && self.string@[self.colon as int] == ':'
    }

    /// The whole id, `source:name`.
    pub closed spec fn spec_id(&self) -> Seq<char> {
        self.string@
    }

    pub closed spec fn spec_source(&self) -> Seq<char> {
        self.string@.take(self.colon as int)
    }

    pub closed spec fn spec_name(&self) -> Seq<char> {
        self.string@.skip(self.colon + 1)
    }

    pub fn id(&self) -> (r: &str)
        ensures
            r@ == self.spec_id(),
    {
        self.string.as_str()
    }

    pub fn name(&self) -> (r: &str)
        ensures
            r@ == self.spec_name(),
    {
        proof {
            use_type_invariant(self);
        }
        let s = self.string.as_str();
        let n = s.unicode_len();
        s.substring_char(self.colon + 1, n)
    }

    pub fn new(source: String, name: String) -> (r: Self)
        ensures
            r.spec_id() == source@ + seq![':'] + name@,
            r.spec_source() == source@,
            r.spec_name() == name@,
    {
        let colon = source.as_str().unicode_len();
        let joined = source.concat(":");
        let string = joined.concat(name.as_str());
        proof {
            reveal_strlit(":");
            assert(string@.take(colon as int) =~= source@);
            assert(string@.skip(colon + 1) =~= name@);
        }
        RegistryId { colon, string }
    }

    pub fn source(&self) -> (r: &str)
        ensures
            r@ == self.spec_source(),
    {
        proof {
            use_type_invariant(self);
        }
        self.string.as_str().substring_char(0, self.colon)
    }

    /// Reads `source:name`: ASCII, no upper-case letters, one `:`, source and name starting
    /// with a lower-case letter and made of letters, digits and `_`.
    pub fn parse(text: &str) -> (r: Result<RegistryId, RegistryIdError>)
        ensures
            !text.is_ascii() ==> r == Err::<RegistryId, RegistryIdError>(
                RegistryIdError::NotAscii,
            ),
            text.is_ascii() && id_error(text.spec_bytes()) is Some ==> r == Err::<
                RegistryId,
                RegistryIdError,
            >(id_error(text.spec_bytes())->0),
            text.is_ascii() && id_error(text.spec_bytes()) is None ==> (r matches Ok(id)
                && id.spec_id() == text@),
    {
        if !text.is_ascii() {
            return Err(RegistryIdError::NotAscii);
        }
        proof {
            vstd::string::is_ascii_spec_bytes(text);
        }
        let b = text.as_bytes();
        let ghost bs = b@;
        let n = b.len();
        let mut i: usize = 0;
        while i < n
            invariant
                text.is_ascii(),
                bs == text.spec_bytes(),
                n == bs.len(),
                bs == b@,
                0 <= i <= n,
                forall|j: int| 0 <= j < i ==> !is_upper_byte(#[trigger] bs[j]),
            decreases n - i,
        {
            if 65 <= b[i] && b[i] <= 90 {
                assert(is_upper_byte(bs[i as int]));
                return Err(RegistryIdError::NotLowercase);
            }
            i = i + 1;
        }
        // the first colon
        let mut k: usize = 0;
        while k < n && b[k] != 58
            invariant
                text.is_ascii(),
                bs == text.spec_bytes(),
                n == bs.len(),
                bs == b@,
                forall|j: int| 0 <= j < n ==> !is_upper_byte(#[trigger] bs[j]),
                0 <= k <= n,
                forall|j: int| 0 <= j < k ==> #[trigger] bs[j] != 58,
            decreases n - k,
        {
            k = k + 1;
        }
        if k == n {
            return Err(RegistryIdError::MissingSeparator);
        }
        // no colon after it
        let mut m: usize = k + 1;
        while m < n
            invariant
                text.is_ascii(),
                bs == text.spec_bytes(),
                n == bs.len(),
                bs == b@,
                forall|j: int| 0 <= j < n ==> !is_upper_byte(#[trigger] bs[j]),
                k < m <= n,
                bs[k as int] == 58,
                forall|j: int| 0 <= j < k ==> #[trigger] bs[j] != 58,
                forall|j: int| k < j < m ==> #[trigger] bs[j] != 58,
            decreases n - m,
        {
            if b[m] == 58 {
                proof {
                    assert forall|c: int| !sole_colon_at(bs, c) by {
                        if sole_colon_at(bs, c) {
                            assert(bs[k as int] == 58);
                            assert(bs[m as int] == 58);
                        }
                    }
                }
                return Err(RegistryIdError::MissingSeparator);
            }
            m = m + 1;
        }
        proof {
            assert(sole_colon_at(bs, k as int));
            let c = choose|c: int| sole_colon_at(bs, c);
            assert(c == k);
        }
        if !(0 < k && 97 <= b[0] && b[0] <= 122 && k + 1 < n && 97 <= b[k + 1] && b[k + 1] <= 122) {
            return Err(RegistryIdError::BadStart);
        }
        let mut w: usize = 0;
        while w < n
            invariant
                text.is_ascii(),
                bs == text.spec_bytes(),
                n == bs.len(),
                bs == b@,
                forall|j: int| 0 <= j < n ==> !is_upper_byte(#[trigger] bs[j]),
                0 <= w <= n,
                0 < k < n,
                sole_colon_at(bs, k as int),
                k + 1 < n,
                is_lower_byte(bs[0]),
                is_lower_byte(bs[k + 1]),
                forall|j: int| 0 <= j < w && j != k ==> is_word_byte(#[trigger] bs[j]),
            decreases n - w,
        {
            if w != k && !alpha_numeric_byte(b[w]) {
                proof {
                    let c = choose|c: int| sole_colon_at(bs, c);
                    assert(c == k);
                }
                return Err(RegistryIdError::NotAlphaNumeric);
            }
            w = w + 1;
        }
        let string = text.to_owned();
        proof {
            let c = choose|c: int| sole_colon_at(bs, c);
            assert(c == k);
            assert(text@[k as int] as u8 == 58);
            assert(text@[k as int] == ':');
        }
        Ok(RegistryId { colon: k, string })
    }
}


/// A collection of items, each registered under a unique id and kept at an index in the
/// order of registration.
pub struct Registry<T: RegistryItem> {
    items: Vec<(RegistryId, T)>,
}

/// No two entries share an id.
pub open spec fn ids_unique<T>(items: Seq<(RegistryId, T)>) -> bool {
    forall|i: int, j: int|
        0 <= i < j < items.len() ==> #[trigger] items[i].0.spec_id() != #[trigger] items[j].0.spec_id()
}

/// Some entry has the id.
pub open spec fn has_id<T>(items: Seq<(RegistryId, T)>, id: Seq<char>) -> bool {
    exists|i: int| 0 <= i < items.len() && #[trigger] items[i].0.spec_id() == id
}

impl<T: RegistryItem> Registry<T> {
    /// The (id, item) pairs, in the order of registration.
    pub closed spec fn entries(&self) -> Seq<(RegistryId, T)> {
        self.items@
    }

    pub open spec fn wf(&self) -> bool {
        ids_unique(self.entries())
    }

    /// Clears all items and ids from the registry.
    pub fn clear(&mut self)
        ensures
            final(self).wf(),
            final(self).entries().len() == 0,
    {
        self.items.clear();
    }

    /// The item with the given id.
    pub fn get(&self, registry_id: &RegistryId) -> (r: Option<&T>)
        requires
            self.wf(),
        ensures
            !has_id(self.entries(), registry_id.spec_id()) ==> r is None,
            has_id(self.entries(), registry_id.spec_id()) ==> (r matches Some(item) && exists|
                i: int,
            |
                0 <= i < self.entries().len() && #[trigger] self.entries()[i].0.spec_id()
                    == registry_id.spec_id() && *item == self.entries()[i].1),
    {
        match self.index_of(registry_id) {
            None => None,
            Some(index) => Some(&self.items[index].1),
        }
    }

    /// The item with the given id, open to change.
    pub fn get_mut(&mut self, registry_id: &RegistryId) -> (r: Option<&mut T>)
        requires
            old(self).wf(),
        ensures
            !has_id(old(self).entries(), registry_id.spec_id()) ==> r is None && final(self).entries()
                == old(self).entries(),
            has_id(old(self).entries(), registry_id.spec_id()) ==> (r matches Some(item) && exists|
                i: int,
            |
                0 <= i < old(self).entries().len() && #[trigger] old(self).entries()[i].0.spec_id()
                    == registry_id.spec_id() && *item == old(self).entries()[i].1 && final(self).entries() == old(self).entries().update(
                    i,
                    (old(self).entries()[i].0, *final(item)),
                )),
    {
        match self.index_of(registry_id) {
            None => None,
            Some(index) => Some(&mut self.items[index].1),
        }
    }

    /// The id of the item at the given index.
    pub fn id_of(&self, index: usize) -> (r: Option<&RegistryId>)
        ensures
            index < self.entries().len() ==> r == Some(&self.entries()[index as int].0),
            index >= self.entries().len() ==> r is None,
    {
        if index >= self.items.len() {
            None
        } else {
            Some(&self.items[index].0)
        }
    }

    /// The registered (id, item) pairs.
    pub fn items(&self) -> (r: &Vec<(RegistryId, T)>)
        ensures
            r@ == self.entries(),
    {
        &self.items
    }

    /// The index at which the item with the given id is kept.
    pub fn index_of(&self, registry_id: &RegistryId) -> (r: Option<usize>)
        requires
            self.wf(),
        ensures
            !has_id(self.entries(), registry_id.spec_id()) ==> r is None,
            has_id(self.entries(), registry_id.spec_id()) ==> (r matches Some(i) && i
                < self.entries().len() && self.entries()[i as int].0.spec_id()
                == registry_id.spec_id()),
    {
        let mut i: usize = 0;
        while i < self.items.len()
            invariant
                0 <= i <= self.entries().len(),
                forall|j: int| 0 <= j < i ==> #[trigger] self.entries()[j].0.spec_id() != registry_id.spec_id(),
            decreases self.entries().len() - i,
        {
            if self.items[i].0 == *registry_id {
                return Some(i);
            }
            i = i + 1;
        }
        None
    }

    /// Registers an item under a new id and returns its index; an id already registered is
    /// refused.
    pub fn insert(&mut self, registry_id: RegistryId, item: T) -> (r: Result<usize, RegistryError>)
        requires
            old(self).wf(),
        ensures
            final(self).wf(),
            has_id(old(self).entries(), registry_id.spec_id()) ==> (r matches Err(
                RegistryError::DuplicateId(id),
            ) && id.spec_id() == registry_id.spec_id() && final(self).entries() == old(
                self,
            ).entries()),
            !has_id(old(self).entries(), registry_id.spec_id()) ==> r == Ok::<usize, RegistryError>(
                old(self).entries().len() as usize,
            ) && final(self).entries() == old(self).entries().push((registry_id, item)),
    {
        if self.index_of(&registry_id).is_some() {
            return Err(RegistryError::DuplicateId(registry_id));
        }
        let index = self.items.len();
        self.items.push((registry_id, item));
        Ok(index)
    }

    /// Registers each item in turn. `Ok` when all were registered; otherwise one entry for
    /// each item given, holding the error of those refused.
    pub fn insert_all(&mut self, registry_ids: Vec<(RegistryId, T)>) -> (r: Result<(), RegistryErrors>)
        requires
            old(self).wf(),
        ensures
            final(self).wf(),
            final(self).entries().len() <= old(self).entries().len() + registry_ids@.len(),
            r is Ok <==> final(self).entries().len() == old(self).entries().len() + registry_ids@.len(),
            r matches Err(RegistryErrors::OptionalErrors(errors)) ==> errors@.len() == registry_ids@.len(),
    {
        let ghost n0 = self.entries().len();
        let ghost total = registry_ids@.len();
        let mut rest = registry_ids;
        let mut backwards: Vec<(RegistryId, T)> = Vec::new();
        while rest.len() > 0
            invariant
                rest@.len() + backwards@.len() == total,
            decreases rest@.len(),
        {
            match rest.pop() {
                Some(pair) => backwards.push(pair),
                None => {},
            }
        }
        let mut errors: Vec<Option<RegistryError>> = Vec::new();
        let mut failed = false;
        while backwards.len() > 0
            invariant
                self.wf(),
                errors@.len() + backwards@.len() == total,
                self.entries().len() <= n0 + errors@.len(),
                !failed <==> self.entries().len() == n0 + errors@.len(),
            decreases backwards@.len(),
        {
            match backwards.pop() {
                Some((registry_id, item)) => {
                    match self.insert(registry_id, item) {
                        Ok(_) => errors.push(None),
                        Err(e) => {
                            errors.push(Some(e));
                            failed = true;
                        },
                    }
                },
                None => {},
            }
        }
        if failed {
            Err(RegistryErrors::OptionalErrors(errors))
        } else {
            Ok(())
        }
    }

    pub fn new() -> (r: Self)
        ensures
            r.wf(),
            r.entries().len() == 0,
    {
        Registry { items: Vec::new() }
    }
}


impl<T: RegistryItem> RegistryItem for Arc<T> {

}

/// Relies on `Arc::clone`: the new handle shares the value of the old one.
#[verifier::external_body]
fn arc_clone<T>(a: &Arc<T>) -> (r: Arc<T>)
    ensures
        r == *a,
{
    Arc::clone(a)
}

/// A registry whose items are shared behind `Arc`s.
pub struct ArcRegistry<T: RegistryItem>(Registry<Arc<T>>);

impl<T: RegistryItem> ArcRegistry<T> {
    /// The underlying registry.
    pub closed spec fn spec_registry(&self) -> Registry<Arc<T>> {
        self.0
    }

    pub fn registry(&self) -> (r: &Registry<Arc<T>>)
        ensures
            *r == self.spec_registry(),
    {
        &self.0
    }

    /// A shared handle to the item with the given id.
    pub fn get_arc(&self, registry_id: &RegistryId) -> (r: Option<Arc<T>>)
        requires
            self.spec_registry().wf(),
        ensures
            !has_id(self.spec_registry().entries(), registry_id.spec_id()) ==> r is None,
            has_id(self.spec_registry().entries(), registry_id.spec_id()) ==> (r matches Some(
                item,
            ) && exists|i: int|
                0 <= i < self.spec_registry().entries().len() && #[trigger] self.spec_registry().entries()[i].0.spec_id()
                    == registry_id.spec_id() && item == self.spec_registry().entries()[i].1),
    {
        match self.0.get(registry_id) {
            None => None,
            Some(arc) => Some(arc_clone(arc)),
        }
    }

    /// The item with the given id, borrowed.
    pub fn get_ref(&self, registry_id: &RegistryId) -> (r: Option<&T>)
        requires
            self.spec_registry().wf(),
        ensures
            !has_id(self.spec_registry().entries(), registry_id.spec_id()) ==> r is None,
            has_id(self.spec_registry().entries(), registry_id.spec_id()) ==> (r matches Some(
                item,
            ) && exists|i: int|
                0 <= i < self.spec_registry().entries().len() && #[trigger] self.spec_registry().entries()[i].0.spec_id()
                    == registry_id.spec_id() && *item == *self.spec_registry().entries()[i].1),
    {
        match self.0.get(registry_id) {
            None => None,
            Some(arc) => Some(&**arc),
        }
    }

    /// Registers an item under a new id and returns its index.
    pub fn insert(&mut self, registry_id: RegistryId, item: T) -> (r: Result<usize, RegistryError>)
        requires
            old(self).spec_registry().wf(),
        ensures
            final(self).spec_registry().wf(),
            has_id(old(self).spec_registry().entries(), registry_id.spec_id()) ==> r is Err
                && final(self).spec_registry().entries() == old(self).spec_registry().entries(),
            !has_id(old(self).spec_registry().entries(), registry_id.spec_id()) ==> r == Ok::<
                usize,
                RegistryError,
            >(old(self).spec_registry().entries().len() as usize) && final(self).spec_registry().entries() == old(self).spec_registry().entries().push(
                (registry_id, Arc::new(item)),
            ),
    {
        self.0.insert(registry_id, Arc::new(item))
    }

    /// Registers each item in turn; see `Registry::insert_all`.
    pub fn insert_all(&mut self, registry_ids: Vec<(RegistryId, T)>) -> (r: Result<(), RegistryErrors>)
        requires
            old(self).spec_registry().wf(),
        ensures
            final(self).spec_registry().wf(),
            r is Ok <==> final(self).spec_registry().entries().len() == old(
                self,
            ).spec_registry().entries().len() + registry_ids@.len(),
    {
        let ghost total = registry_ids@.len();
        let mut rest = registry_ids;
        let mut shared: Vec<(RegistryId, Arc<T>)> = Vec::new();
        let mut backwards: Vec<(RegistryId, T)> = Vec::new();
        while rest.len() > 0
            invariant
                rest@.len() + backwards@.len() == total,
            decreases rest@.len(),
        {
            match rest.pop() {
                Some(pair) => backwards.push(pair),
                None => {},
            }
        }
        while backwards.len() > 0
            invariant
                shared@.len() + backwards@.len() == total,
            decreases backwards@.len(),
        {
            match backwards.pop() {
                Some((id, item)) => shared.push((id, Arc::new(item))),
                None => {},
            }
        }
        self.0.insert_all(shared)
    }

    pub fn new() -> (r: Self)
        ensures
            r.spec_registry().wf(),
            r.spec_registry().entries().len() == 0,
    {
        ArcRegistry(Registry::new())
    }
}

impl Clone for RegistryId {
    fn clone(&self) -> (r: Self)
        ensures
            r.spec_id() == self.spec_id(),
            r.spec_source() == self.spec_source(),
            r.spec_name() == self.spec_name(),
    {
        proof {
            use_type_invariant(self);
        }
        RegistryId { colon: self.colon, string: self.string.clone() }
    }
}

impl PartialEq for RegistryId {
    fn eq(&self, other: &RegistryId) -> (r: bool) {
        self.string == other.string
    }
}

impl vstd::std_specs::cmp::PartialEqSpecImpl for RegistryId {
    open spec fn obeys_eq_spec() -> bool {
        true
    }

    open spec fn eq_spec(&self, other: &RegistryId) -> bool {
        self.spec_id() == other.spec_id()
    }
}

impl Eq for RegistryId {

}

} // verus!
