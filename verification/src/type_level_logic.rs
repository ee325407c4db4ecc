//! Booleans on the level of types: a value that is present if and only if a type says so.

use vstd::prelude::*;

verus! {

/// A type with no values: it stands for "false" on the level of types.
#[derive(Clone, Copy, Debug)]
pub struct False {
    never: (),
}

impl False {
    #[verifier::type_invariant]
    pub open spec fn no_value_exists(self) -> bool {
        false
    }

    /// There is no value of [`False`], so having one proves anything.
    pub fn absurd<T>(&self) -> T
        decreases 0nat,
    {
        proof {
            use_type_invariant(self);
        }
        self.absurd()
    }
}

/// The type standing for "true".
pub type True = ();

/// A type standing for a boolean.
pub trait TyBool: Sized {
    /// The negation.
    type Not;
}

impl TyBool for True {
    type Not = False;
}

impl TyBool for False {
    type Not = True;
}

/// Value that is present if and only if the `Present` generic param is inhibited ([`True`])
pub enum TyOption<T, Present: TyBool> {
    Present(T, Present),
    Empty(Present::Not),
}

impl<T> TyOption<T, False> {
    /// The only value of an option that is never present.
    pub fn new_empty() -> (r: Self)
        ensures
            r is Empty,
    {
        TyOption::Empty(())
    }
}

impl<T, Present: TyBool + Copy> TyOption<T, Present> where Present::Not: Copy {
    pub fn as_ref(&self) -> (r: TyOption<&T, Present>)
        ensures
            match (*self, r) {
                (TyOption::Present(t, p), TyOption::Present(rt, rp)) => *rt == t && rp == p,
                (TyOption::Empty(n), TyOption::Empty(rn)) => rn == n,
                _ => false,
            },
    {
        match self {
            TyOption::Present(t, tr) => TyOption::Present(t, *tr),
            TyOption::Empty(fa) => TyOption::Empty(*fa),
        }
    }
}

impl<T> TyOption<T, True> {
    /// Unwraps the value - the fact that this contains the value is checked at compile time, therefore, this is an infallible function.
    pub fn uwnrap_infallible(self) -> (t: T)
        ensures
            self matches TyOption::Present(v, _) && t == v,
    {
        match self {
            TyOption::Present(t, _) => t,
            TyOption::Empty(f) => {
                proof {
                    use_type_invariant(&f);
                }
                f.absurd()
            },
        }
    }

    /// A reference to the value, which is always present.
    pub fn deref(&self) -> (t: &T)
        ensures
            *self matches TyOption::Present(v, _) && *t == v,
    {
        match self {
            TyOption::Present(t, _) => t,
            TyOption::Empty(f) => {
                proof {
                    use_type_invariant(f);
                }
                f.absurd()
            },
        }
    }
}

} // verus!
