use std::sync::Arc;
use vstd::prelude::*;

verus! {

/// A cheaply clonable handle to one shared, immutable value.
///
/// Every clone points at the same value. The handle adds no synchronisation
/// of its own: it is `Send` and `Sync` exactly when the value behind it allows
/// that, so a value that is mutated through it must bring its own lock.
pub struct Redex<T> {
    data: Arc<T>,
}

/// `Arc::clone` of std: the new handle points at the allocation of the old
/// one, so both show the same value.
#[verifier::external_body]
fn arc_clone<T>(a: &Arc<T>) -> (r: Arc<T>)
    ensures
        r == *a,
{
    Arc::clone(a)
}

impl<T> View for Redex<T> {
    type V = T;

    closed spec fn view(&self) -> T {
        *self.data
    }
}

impl<T> Redex<T> {
    /// Wraps `data` for sharing.
    pub fn new(data: T) -> (r: Self)
        ensures
            r@ == data,
    {
        Redex { data: Arc::new(data) }
    }

    /// The shared value.
    pub fn get(&self) -> (r: &T)
        ensures
            *r == self@,
    {
        &*self.data
    }
}

impl<T> Clone for Redex<T> {
    /// Another handle to the same value.
    fn clone(&self) -> (r: Self)
        ensures
            r@ == self@,
    {
        Redex { data: arc_clone(&self.data) }
    }
}

impl<T> std::ops::Deref for Redex<T> {
    type Target = T;

    fn deref(&self) -> (r: &T)
        ensures
            *r == self@,
    {
        &*self.data
    }
}

} // verus!
