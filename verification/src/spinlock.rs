//! A lock around a value, taken and given back by its owner.

use vstd::prelude::*;

verus! {

/// A value behind a lock flag.
#[derive(Debug)]
pub struct Spinlock<T> {
    lock: bool,
    inner: T,
}

impl<T> Spinlock<T> {
    /// Whether the lock is taken.
    pub closed spec fn is_locked(&self) -> bool {
        self.lock
    }

    /// The value behind the lock.
    pub closed spec fn value(&self) -> T {
        self.inner
    }

    /// A lock that is free, around `inner`.
    pub fn new(inner: T) -> (r: Self)
        ensures
            !r.is_locked(),
            r.value() == inner,
    {
        Spinlock { lock: false, inner }
    }

    /// Takes the lock and gives access to the value.  A lock that is taken
    /// makes this spin until it is given back.
    pub fn lock_spin(&mut self) -> (r: &mut T)
        requires
            !old(self).is_locked(),
        ensures
            *r == old(self).value(),
            final(self).is_locked(),
            final(self).value() == *final(r),
    {
        self.lock = true;
        &mut self.inner
    }

    /// Gives the lock back.
    pub fn unlock(&mut self)
        ensures
            !final(self).is_locked(),
            final(self).value() == old(self).value(),
    {
        self.lock = false;
    }

    /// Takes the lock and gives access to the value if the lock is free;
    /// gives `None` and changes nothing if it is taken.
    pub fn try_lock(&mut self) -> (r: Option<&mut T>)
        ensures
            old(self).is_locked() ==> r is None && final(self).is_locked() && final(self).value()
                == old(self).value(),
            !old(self).is_locked() ==> (r matches Some(v) && *v == old(self).value()
                && final(self).is_locked() && final(self).value() == *final(v)),
    {
        if self.lock {
            None
        } else {
            self.lock = true;
            Some(&mut self.inner)
        }
    }
}

} // verus!
