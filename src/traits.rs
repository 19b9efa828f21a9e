//! Fallible allocation for vectors and slices.

use std::collections::TryReserveError;
use vstd::prelude::*;

verus! {

/// Reserves room for exactly `additional` more elements.
///
/// Relies on `Vec::try_reserve_exact`, which leaves the elements as they are,
/// whether it succeeds or fails.
#[verifier::external_body]
fn reserve_exact<T>(v: &mut Vec<T>, additional: usize) -> (r: Result<(), TryReserveError>)
    ensures
        final(v)@ == old(v)@,
{
    v.try_reserve_exact(additional)
}

/// Fallible methods of [`Vec`].
pub trait VecExt<T>: Sized {
    /// The elements.
    spec fn items(&self) -> Seq<T>;

    /// An empty vector with room for `capacity` elements, or the allocation
    /// error.
    fn try_with_capacity(capacity: usize) -> (r: Result<Self, TryReserveError>)
        ensures
            r matches Ok(v) ==> v.items() == Seq::<T>::empty(),
    ;

    /// Appends clones of `other`, or fails with the allocation error and
    /// leaves the vector as it was.
    fn try_extend_from_slice(&mut self, other: &[T]) -> (r: Result<(), TryReserveError>) where
        T: Clone
        ensures
            r is Err ==> final(self).items() == old(self).items(),
            r is Ok ==> {
                &&& final(self).items().len() == old(self).items().len() + other@.len()
                &&& final(self).items().subrange(0, old(self).items().len() as int) == old(
                    self,
                ).items()
                &&& forall|i: int|
                    0 <= i < other@.len() ==> cloned::<T>(
                        other@[i],
                        #[trigger] final(self).items()[old(self).items().len() + i],
                    )
            },
    ;

    /// Truncates, or extends with clones of `value`, to `new_len` elements;
    /// or fails with the allocation error and leaves the vector as it was.
    fn try_resize(&mut self, new_len: usize, value: T) -> (r: Result<(), TryReserveError>) where
        T: Clone
        ensures
            r is Err ==> final(self).items() == old(self).items(),
            r is Ok && new_len <= old(self).items().len() ==> final(self).items() == old(
                self,
            ).items().subrange(0, new_len as int),
            r is Ok && new_len > old(self).items().len() ==> {
                &&& final(self).items().len() == new_len
                &&& final(self).items().subrange(0, old(self).items().len() as int) == old(
                    self,
                ).items()
                &&& forall|i: int|
                    old(self).items().len() <= i < new_len ==> cloned::<T>(
                        value,
                        #[trigger] final(self).items()[i],
                    )
            },
    ;
}

impl<T> VecExt<T> for Vec<T> {
    open spec fn items(&self) -> Seq<T> {
        self@
    }

    fn try_with_capacity(capacity: usize) -> (r: Result<Self, TryReserveError>) {
        let mut vec: Vec<T> = Vec::new();
        match reserve_exact(&mut vec, capacity) {
            Ok(()) => Ok(vec),
            Err(e) => Err(e),
        }
    }

    fn try_extend_from_slice(&mut self, other: &[T]) -> (r: Result<(), TryReserveError>) where
        T: Clone,
     {
        match self.try_reserve(other.len()) {
            Ok(()) => {},
            Err(e) => return Err(e),
        }
        self.extend_from_slice(other);
        assert(self@.subrange(0, old(self)@.len() as int) =~= old(self)@);
        Ok(())
    }

    fn try_resize(&mut self, new_len: usize, value: T) -> (r: Result<(), TryReserveError>) where
        T: Clone,
     {
        let additional = new_len.saturating_sub(self.len());
        match self.try_reserve(additional) {
            Ok(()) => {},
            Err(e) => return Err(e),
        }
        self.resize(new_len, value);
        Ok(())
    }
}

/// Fallible counterpart of `ToOwned`.
pub trait TryToOwned {
    /// The owned form.
    type Owned;

    /// `owned` holds clones of the elements of `self`.
    spec fn is_copy(&self, owned: Self::Owned) -> bool;

    /// `a` and `b` hold the same elements.
    spec fn same_owned(a: Self::Owned, b: Self::Owned) -> bool;

    /// An owned copy, or the allocation error.
    fn try_to_owned(&self) -> (r: Result<Self::Owned, TryReserveError>)
        ensures
            r matches Ok(o) ==> self.is_copy(o),
    ;

    /// Makes `target` a copy of `self`, reusing its allocation, or fails
    /// with the allocation error and leaves `target` as it was.
    fn try_clone_into(&self, target: &mut Self::Owned) -> (r: Result<(), TryReserveError>)
        ensures
            r is Ok ==> self.is_copy(*final(target)),
            r is Err ==> Self::same_owned(*final(target), *old(target)),
    ;
}

impl<T: Clone> TryToOwned for [T] {
    type Owned = Vec<T>;

    open spec fn is_copy(&self, owned: Vec<T>) -> bool {
        &&& owned@.len() == self@.len()
        &&& forall|i: int| 0 <= i < self@.len() ==> cloned::<T>(self@[i], #[trigger] owned@[i])
    }

    open spec fn same_owned(a: Vec<T>, b: Vec<T>) -> bool {
        a@ == b@
    }

    fn try_to_owned(&self) -> (r: Result<Vec<T>, TryReserveError>) {
        let mut vec: Vec<T> = Vec::new();
        match self.try_clone_into(&mut vec) {
            Ok(()) => Ok(vec),
            Err(e) => Err(e),
        }
    }

    fn try_clone_into(&self, target: &mut Vec<T>) -> (r: Result<(), TryReserveError>) {
        let additional = self.len().saturating_sub(target.len());
        match reserve_exact(target, additional) {
            Ok(()) => {},
            Err(e) => return Err(e),
        }
        target.clear();
        target.extend_from_slice(self);
        Ok(())
    }
}

} // verus!
