//! A value that is either borrowed or owned.

use vstd::prelude::*;

verus! {

/// A value that is either borrowed or owned.
#[derive(Clone, Copy, Debug)]
pub enum MaybeBorrowed<'a, T> {
    Borrowed(&'a T),
    Owned(T),
}

impl<'a, T> MaybeBorrowed<'a, T> {
    /// The value, wherever it is.
    pub open spec fn value(&self) -> T {
        match *self {
            MaybeBorrowed::Borrowed(t) => *t,
            MaybeBorrowed::Owned(t) => t,
        }
    }

    /// A reference to the value.
    pub fn get(&self) -> (r: &T)
        ensures
            *r == self.value(),
    {
        match self {
            MaybeBorrowed::Borrowed(t) => t,
            MaybeBorrowed::Owned(t) => t,
        }
    }

    /// An owned value.
    pub fn owned(value: T) -> (r: Self)
        ensures
            r == MaybeBorrowed::<'a, T>::Owned(value),
    {
        MaybeBorrowed::Owned(value)
    }

    /// A borrowed value.
    pub fn borrowed(value: &'a T) -> (r: Self)
        ensures
            r == MaybeBorrowed::<'a, T>::Borrowed(value),
    {
        MaybeBorrowed::Borrowed(value)
    }
}

} // verus!
