//! See [`Sign`].

use std::marker::PhantomData;
use vstd::prelude::*;
use vstd::std_specs::convert::IntoSpec;

verus! {

/// Wrapper that changes the type identity of an existing type: `Sign<MyAssets, A>` and
/// `Sign<MyAssets, B>` are different types holding the same kind of value, so each can be
/// registered on its own (two global resources, an event carrying a primitive, extra
/// context on a resource).
///
/// The `Phantom` parameter can be any type, preferably a unique zero-sized one.
pub struct Sign<T, Phantom: ?Sized> {
    inner: T,
    phantom: PhantomData<Phantom>,
}

impl<T, Phantom: ?Sized> Sign<T, Phantom> {
    /// The wrapped value.
    pub closed spec fn spec_inner(&self) -> T {
        self.inner
    }

    /// Creates a `Sign<T>` for any value that can be converted into `T`.
    pub fn from<U: Into<T>>(value: U) -> (r: Sign<T, Phantom>)
        ensures
            U::obeys_into_spec() ==> r.spec_inner() == value.into_spec(),
    {
        Sign { inner: value.into(), phantom: PhantomData }
    }

    /// Changes the phantom type, keeping the same value.
    pub fn map_phantom<NewPhantom>(self) -> (r: Sign<T, NewPhantom>)
        ensures
            r.spec_inner() == self.spec_inner(),
    {
        Sign { phantom: PhantomData, inner: self.inner }
    }

    /// Wraps the value. See `Sign::signed` for a version that names the phantom type.
    pub fn new(value: T) -> (r: Self)
        ensures
            r.spec_inner() == value,
    {
        Sign { phantom: PhantomData, inner: value }
    }

    /// A copy of the phantom data.
    pub fn phantom(&self) -> (r: PhantomData<Phantom>)
        ensures
            r == PhantomData::<Phantom>,
    {
        PhantomData
    }

    /// Same as `Sign::new`, with a type parameter for the phantom type.
    pub fn signed<WithPhantom>(value: T) -> (r: Sign<T, WithPhantom>)
        ensures
            r.spec_inner() == value,
    {
        Sign { phantom: PhantomData, inner: value }
    }

    /// Takes the value out of the wrapper.
    pub fn take(self) -> (r: T)
        ensures
            r == self.spec_inner(),
    {
        self.inner
    }

    pub fn take_phantom(self) -> (r: PhantomData<Phantom>)
        ensures
            r == PhantomData::<Phantom>,
    {
        PhantomData
    }

    /// The wrapped value, borrowed.
    pub fn inner(&self) -> (r: &T)
        ensures
            *r == self.spec_inner(),
    {
        &self.inner
    }

    /// The wrapped value, borrowed for change.
    pub fn inner_mut(&mut self) -> (r: &mut T)
        ensures
            *r == old(self).spec_inner(),
            final(self).spec_inner() == *final(r),
    {
        &mut self.inner
    }
}

impl<T, Phantom: Default + ?Sized> Sign<T, Phantom> {
    /// A default value of the phantom type.
    pub fn default_phantom_instance(&self) -> (r: Phantom)
        ensures
            call_ensures(Phantom::default, (), r),
    {
        Phantom::default()
    }
}

impl<T: Clone, Phantom: ?Sized> Clone for Sign<T, Phantom> {
    fn clone(&self) -> (r: Self)
        ensures
            cloned(self.spec_inner(), r.spec_inner()),
    {
        Sign { phantom: PhantomData, inner: self.inner.clone() }
    }
}

impl<T: Default, Phantom: ?Sized> Default for Sign<T, Phantom> {
    fn default() -> (r: Self)
        ensures
            call_ensures(T::default, (), r.spec_inner()),
    {
        Sign { phantom: PhantomData, inner: T::default() }
    }
}

} // verus!
