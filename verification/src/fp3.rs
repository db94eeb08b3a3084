//! The direct product ring F x F x F used to amplify verifier randomness.
//!
//! This is not a field extension: all arithmetic is componentwise, and a
//! base-field value embeds diagonally.  The DEEP quotient is computed in
//! this ring so that a 192-bit challenge governs the closeness check while
//! folding and Merkle commitments remain over the base field.

use vstd::prelude::*;
use crate::field::{Goldilocks, fadd, fsub, fmul, finv};

verus! {

/// An element of the direct product ring F x F x F.
#[derive(Clone, Copy, PartialEq, Eq, Structural, Debug)]
pub struct Fp3 {
    pub a0: Goldilocks,
    pub a1: Goldilocks,
    pub a2: Goldilocks,
}

impl Fp3 {
    /// All three coordinates are in canonical form.
    pub open spec fn wf(self) -> bool {
        self.a0.wf() && self.a1.wf() && self.a2.wf()
    }

    /// The additive identity.
    pub fn zero() -> (r: Self)
        ensures
            r.wf(),
            r.a0@ == 0 && r.a1@ == 0 && r.a2@ == 0,
    {
        Fp3 { a0: Goldilocks::zero(), a1: Goldilocks::zero(), a2: Goldilocks::zero() }
    }

    /// The multiplicative identity.
    pub fn one() -> (r: Self)
        ensures
            r.wf(),
            r.a0@ == 1 && r.a1@ == 1 && r.a2@ == 1,
    {
        Fp3 { a0: Goldilocks::one(), a1: Goldilocks::one(), a2: Goldilocks::one() }
    }

    /// Diagonal embedding of a base-field element.
    pub fn from_base(x: Goldilocks) -> (r: Self)
        ensures
            r.wf() == x.wf(),
            r.a0 == x && r.a1 == x && r.a2 == x,
    {
        Fp3 { a0: x, a1: x, a2: x }
    }

    /// Componentwise addition.
    pub fn add(self, rhs: Self) -> (r: Self)
        requires
            self.wf(),
            rhs.wf(),
        ensures
            r.wf(),
            r.a0@ == fadd(self.a0@, rhs.a0@),
            r.a1@ == fadd(self.a1@, rhs.a1@),
            r.a2@ == fadd(self.a2@, rhs.a2@),
    {
        Fp3 { a0: self.a0.add(rhs.a0), a1: self.a1.add(rhs.a1), a2: self.a2.add(rhs.a2) }
    }

    /// Componentwise subtraction.
    pub fn sub(self, rhs: Self) -> (r: Self)
        requires
            self.wf(),
            rhs.wf(),
        ensures
            r.wf(),
            r.a0@ == fsub(self.a0@, rhs.a0@),
            r.a1@ == fsub(self.a1@, rhs.a1@),
            r.a2@ == fsub(self.a2@, rhs.a2@),
    {
        Fp3 { a0: self.a0.sub(rhs.a0), a1: self.a1.sub(rhs.a1), a2: self.a2.sub(rhs.a2) }
    }

    /// Componentwise multiplication.
    pub fn mul(self, rhs: Self) -> (r: Self)
        requires
            self.wf(),
            rhs.wf(),
        ensures
            r.wf(),
            r.a0@ == fmul(self.a0@, rhs.a0@),
            r.a1@ == fmul(self.a1@, rhs.a1@),
            r.a2@ == fmul(self.a2@, rhs.a2@),
    {
        Fp3 { a0: self.a0.mul(rhs.a0), a1: self.a1.mul(rhs.a1), a2: self.a2.mul(rhs.a2) }
    }

    /// Componentwise inversion; fails when any coordinate has no inverse.
    pub fn inv(self) -> (r: Option<Self>)
        requires
            self.wf(),
        ensures
            r matches Some(y) ==> {
                &&& y.wf()
                &&& y.a0@ == finv(self.a0@) && fmul(y.a0@, self.a0@) == 1
                &&& y.a1@ == finv(self.a1@) && fmul(y.a1@, self.a1@) == 1
                &&& y.a2@ == finv(self.a2@) && fmul(y.a2@, self.a2@) == 1
            },
            r is Some <==> {
                &&& self.a0@ != 0 && fmul(finv(self.a0@), self.a0@) == 1
                &&& self.a1@ != 0 && fmul(finv(self.a1@), self.a1@) == 1
                &&& self.a2@ != 0 && fmul(finv(self.a2@), self.a2@) == 1
            },
    {
        let i0 = self.a0.inv();
        let i1 = self.a1.inv();
        let i2 = self.a2.inv();
        match (i0, i1, i2) {
            (Some(b0), Some(b1), Some(b2)) => Some(Fp3 { a0: b0, a1: b1, a2: b2 }),
            _ => None,
        }
    }

    /// Whether all three coordinates are zero.
    pub fn is_zero(self) -> (r: bool)
        ensures
            r <==> (self.a0@ == 0 && self.a1@ == 0 && self.a2@ == 0),
    {
        self.a0.is_zero() && self.a1.is_zero() && self.a2.is_zero()
    }
}

} // verus!
