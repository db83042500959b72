//! Signed arbitrary-precision integers.
//!
//! A `BigInt` pairs a sign tag with a magnitude, with the invariant that
//! the tag is `NoSign` exactly when the magnitude is zero.  Only the
//! operations the sampling code and its callers need are provided:
//! construction, sign and magnitude access, negation, comparison,
//! addition and subtraction.
use vstd::prelude::*;
use crate::biguint::BigUint;

verus! {

/// The sign of a `BigInt`.
#[derive(Clone, Copy, PartialEq, Eq, Structural, Debug)]
pub enum Sign {
    Minus,
    NoSign,
    Plus,
}

/// Signed big integer: a sign tag and a canonical magnitude.
#[derive(Clone, Debug)]
pub struct BigInt {
    sign: Sign,
    mag: BigUint,
}

impl BigInt {
    pub closed spec fn sign_spec(&self) -> Sign {
        self.sign
    }

    pub closed spec fn mag_spec(&self) -> BigUint {
        self.mag
    }

    /// Magnitude canonical, and the tag `NoSign` exactly on zero.
    pub open spec fn wf(&self) -> bool {
        &&& self.mag_spec().wf()
        &&& (self.sign_spec() == Sign::NoSign <==> self.mag_spec().value() == 0)
    }

    pub open spec fn value(&self) -> int {
        if self.sign_spec() == Sign::Minus {
            -(self.mag_spec().value() as int)
        } else {
            self.mag_spec().value() as int
        }
    }

    pub fn zero() -> (r: BigInt)
        ensures
            r.wf(),
            r.value() == 0,
            r.mag_spec()@.len() == 0,
    {
        BigInt { sign: Sign::NoSign, mag: BigUint::zero() }
    }

    /// Combines a sign and a magnitude, normalising: a zero magnitude
    /// forces `NoSign`, and `NoSign` forces the zero value.
    pub fn from_biguint(sign: Sign, mag: BigUint) -> (r: BigInt)
        requires
            mag.wf(),
        ensures
            r.wf(),
            r.value() == (match sign {
                Sign::Minus => -(mag.value() as int),
                Sign::NoSign => 0int,
                Sign::Plus => mag.value() as int,
            }),
            r.mag_spec()@.len() <= mag@.len(),
    {
        if sign == Sign::NoSign {
            BigInt::zero()
        } else if mag.is_zero() {
            BigInt::zero()
        } else {
            BigInt { sign, mag }
        }
    }

    pub fn from_i64(v: i64) -> (r: BigInt)
        ensures
            r.wf(),
            r.value() == v,
            r.mag_spec()@.len() <= 1,
    {
        if v >= 0 {
            BigInt::from_biguint(Sign::Plus, BigUint::from_u64(v as u64))
        } else {
            let wide: i128 = -(v as i128);
            let m: u64 = wide as u64;
            BigInt::from_biguint(Sign::Minus, BigUint::from_u64(m))
        }
    }

    pub fn magnitude(&self) -> (r: &BigUint)
        ensures
            *r == self.mag_spec(),
    {
        &self.mag
    }

    /// The sign and the magnitude, taken apart.
    pub fn into_parts(self) -> (r: (Sign, BigUint))
        ensures
            r.0 == self.sign_spec(),
            r.1 == self.mag_spec(),
    {
        (self.sign, self.mag)
    }

    pub fn is_zero(&self) -> (r: bool)
        requires
            self.wf(),
        ensures
            r == (self.value() == 0),
    {
        self.sign == Sign::NoSign
    }

    /// A fresh value with the same sign and words.
    pub fn duplicate(&self) -> (r: BigInt)
        ensures
            r.sign_spec() == self.sign_spec(),
            r.mag_spec()@ == self.mag_spec()@,
            r.wf() == self.wf(),
            r.value() == self.value(),
    {
        BigInt { sign: self.sign, mag: self.mag.duplicate() }
    }

    /// The value with the opposite sign.
    pub fn neg(&self) -> (r: BigInt)
        requires
            self.wf(),
        ensures
            r.wf(),
            r.value() == -self.value(),
            r.mag_spec()@ == self.mag_spec()@,
    {
        let sign = match self.sign {
            Sign::Minus => Sign::Plus,
            Sign::NoSign => Sign::NoSign,
            Sign::Plus => Sign::Minus,
        };
        BigInt { sign, mag: self.mag.duplicate() }
    }

    /// Strict signed comparison by value.
    pub fn lt(&self, other: &BigInt) -> (r: bool)
        requires
            self.wf(),
            other.wf(),
        ensures
            r == (self.value() < other.value()),
    {
        match (self.sign, other.sign) {
            (Sign::Minus, Sign::Minus) => other.mag.lt(&self.mag),
            (Sign::Minus, _) => true,
            (Sign::NoSign, Sign::Minus) => false,
            (Sign::NoSign, Sign::NoSign) => false,
            (Sign::NoSign, Sign::Plus) => true,
            (Sign::Plus, Sign::Plus) => self.mag.lt(&other.mag),
            (Sign::Plus, _) => false,
        }
    }

    /// Non-strict signed comparison by value.
    pub fn le(&self, other: &BigInt) -> (r: bool)
        requires
            self.wf(),
            other.wf(),
        ensures
            r == (self.value() <= other.value()),
    {
        !other.lt(self)
    }

    /// Signed sum.
    pub fn add(&self, other: &BigInt) -> (r: BigInt)
        requires
            self.wf(),
            other.wf(),
            self.mag_spec()@.len() < usize::MAX,
            other.mag_spec()@.len() < usize::MAX,
        ensures
            r.wf(),
            r.value() == self.value() + other.value(),
            r.mag_spec()@.len() <= (if self.mag_spec()@.len() >= other.mag_spec()@.len() {
                self.mag_spec()@.len()
            } else {
                other.mag_spec()@.len()
            }) + 1,
    {
        if self.is_zero() {
            return other.duplicate();
        }
        if other.is_zero() {
            return self.duplicate();
        }
        if self.sign == other.sign {
            let mag = self.mag.add(&other.mag);
            return BigInt { sign: self.sign, mag };
        }
        // Opposite non-zero signs: the larger magnitude wins.
        if self.mag.lt(&other.mag) {
            let mag = other.mag.sub(&self.mag);
            BigInt::from_biguint(other.sign, mag)
        } else if other.mag.lt(&self.mag) {
            let mag = self.mag.sub(&other.mag);
            BigInt::from_biguint(self.sign, mag)
        } else {
            BigInt::zero()
        }
    }

    /// Signed difference.
    pub fn sub(&self, other: &BigInt) -> (r: BigInt)
        requires
            self.wf(),
            other.wf(),
            self.mag_spec()@.len() < usize::MAX,
            other.mag_spec()@.len() < usize::MAX,
        ensures
            r.wf(),
            r.value() == self.value() - other.value(),
            r.mag_spec()@.len() <= (if self.mag_spec()@.len() >= other.mag_spec()@.len() {
                self.mag_spec()@.len()
            } else {
                other.mag_spec()@.len()
            }) + 1,
    {
        let n = other.neg();
        self.add(&n)
    }
}

} // verus!
