//! A copy-on-write overlay over a single value.

use vstd::pervasive::strictly_cloned;
use vstd::prelude::*;

verus! {

/// Holds an exclusive handle to a value and, once the value is asked for
/// mutably, a private copy of it that takes every change.
pub struct GenericWrap<'a, T> where T: Clone {
    inner: &'a mut T,
    copy: Option<T>,
}

impl<'a, T> GenericWrap<'a, T> where T: Clone {
    /// The value behind the handle, as it is now.
    pub closed spec fn original(&self) -> T {
        *self.inner
    }

    /// The handle to the original; what it will hold once the wrapper is
    /// gone is `*final(self.handle())`.
    pub closed spec fn handle(&self) -> &'a mut T {
        self.inner
    }

    /// The private copy, if one has been made.
    pub closed spec fn shadow(&self) -> Option<T> {
        self.copy
    }

    /// What reads through the wrapper see.
    pub open spec fn current(&self) -> T {
        match self.shadow() {
            Some(c) => c,
            None => self.original(),
        }
    }

    /// Wraps `val`; no copy is made yet.
    pub fn new(val: &'a mut T) -> (r: Self)
        ensures
            r.original() == *old(val),
            r.shadow() is None,
            *final(r.handle()) == *final(val),
    {
        GenericWrap { inner: val, copy: None }
    }

    /// Moves the copy, if any, into the original's place and hands back the
    /// value it replaced; without a copy the original is left as it was.
    pub fn replace(val: Self) -> (r: Option<T>)
        ensures
            match val.shadow() {
                Some(c) => r == Some(val.original()) && *final(val.handle()) == c,
                None => r is None && *final(val.handle()) == val.original(),
            },
    {
        let copy = val.copy;
        let inner = val.inner;
        match copy {
            Some(mut v) => {
                core::mem::swap(inner, &mut v);
                Some(v)
            },
            None => None,
        }
    }

    /// Drops the wrapper without touching the original, handing back the
    /// copy if one was made.
    pub fn discard(val: Self) -> (r: Option<T>)
        ensures
            r == val.shadow(),
            *final(val.handle()) == val.original(),
    {
        val.copy
    }

    /// Read access: the copy if there is one, else the original.
    pub fn deref(&self) -> (r: &T)
        ensures
            *r == self.current(),
    {
        match &self.copy {
            Some(v) => v,
            None => &*self.inner,
        }
    }

    /// Mutable access. The first request clones the original into the copy;
    /// later ones reuse that copy. The original is never touched.
    pub fn deref_mut(&mut self) -> (r: &mut T)
        ensures
            final(self).original() == old(self).original(),
            *final(final(self).handle()) == *final(old(self).handle()),
            match old(self).shadow() {
                Some(c) => *r == c,
                None => strictly_cloned(old(self).original(), *r),
            },
            final(self).shadow() == Some(*final(r)),
    {
        if self.copy.is_none() {
            let c = self.inner.clone();
            self.copy = Some(c);
        }
        self.copy.as_mut().unwrap()
    }
}

} // verus!
