//! Uniform-distribution adapters.
//!
//! `UniformBigUint` and `UniformBigInt` implement the reusable
//! uniform-sampling back-end shape: construction from exclusive or
//! inclusive bounds, failing with a typed empty-range error on invalid
//! bounds, then repeated draws from the captured range.  `RandomBits` is
//! the stateless fixed-bit-size distribution.
use vstd::prelude::*;
use vstd::arithmetic::power2::pow2;
use crate::biguint::BigUint;
use crate::bigint::{BigInt, Sign};
use crate::bigrand::RandBigInt;
use crate::entropy::EntropySource;

verus! {

/// The typed error for uniform-sampler construction: the requested
/// range holds no value.
#[derive(Clone, Copy, PartialEq, Eq, Structural, Debug)]
pub enum UniformError {
    EmptyRange,
}

/// The back-end uniform sampler for `BigUint`: a draw is `base + d`
/// with `d` uniform below `len`.
#[derive(Clone, Debug)]
pub struct UniformBigUint {
    base: BigUint,
    len: BigUint,
}

impl UniformBigUint {
    /// The cached lower bound.
    pub closed spec fn base_spec(&self) -> BigUint {
        self.base
    }

    /// The cached strictly positive span.
    pub closed spec fn len_spec(&self) -> BigUint {
        self.len
    }

    pub open spec fn wf(&self) -> bool {
        &&& self.base_spec().wf()
        &&& self.len_spec().wf()
        &&& self.len_spec().value() > 0
        &&& self.len_spec()@.len() <= usize::MAX as nat / 64
        &&& self.base_spec()@.len() < usize::MAX
    }

    /// Construction from an inclusive lower and exclusive upper bound;
    /// an empty range is a typed error, never an abort.
    pub fn new(low: &BigUint, high: &BigUint) -> (r: Result<UniformBigUint, UniformError>)
        requires
            low.wf(),
            high.wf(),
            high@.len() <= usize::MAX as nat / 64,
            low@.len() < usize::MAX,
        ensures
            r is Ok <==> low.value() < high.value(),
            r is Ok ==> r->Ok_0.wf() && r->Ok_0.base_spec().value() == low.value()
                && r->Ok_0.len_spec().value() == high.value() - low.value(),
            r is Err ==> r->Err_0 == UniformError::EmptyRange,
    {
        if low.lt(high) {
            Ok(UniformBigUint { len: high.sub(low), base: low.duplicate() })
        } else {
            Err(UniformError::EmptyRange)
        }
    }

    /// Construction from an inclusive lower and inclusive upper bound.
    pub fn new_inclusive(low: &BigUint, high: &BigUint) -> (r: Result<
        UniformBigUint,
        UniformError,
    >)
        requires
            low.wf(),
            high.wf(),
            high@.len() + 2 <= usize::MAX as nat / 64,
            low@.len() < usize::MAX,
        ensures
            r is Ok <==> low.value() <= high.value(),
            r is Ok ==> r->Ok_0.wf() && r->Ok_0.base_spec().value() == low.value()
                && r->Ok_0.len_spec().value() == high.value() + 1 - low.value(),
            r is Err ==> r->Err_0 == UniformError::EmptyRange,
    {
        if low.le(high) {
            let one = BigUint::from_u64(1);
            let h1 = high.add(&one);
            UniformBigUint::new(low, &h1)
        } else {
            Err(UniformError::EmptyRange)
        }
    }

    /// One draw from the captured range.
    pub fn sample<E: EntropySource>(&self, rng: &mut E) -> (r: BigUint)
        requires
            self.wf(),
        ensures
            r.wf(),
            self.base_spec().value() <= r.value() < self.base_spec().value()
                + self.len_spec().value(),
            final(rng).entropy() <= old(rng).entropy(),
    {
        let d = rng.random_biguint_below(&self.len);
        self.base.add(&d)
    }

    /// One draw straight from a pair of bounds, inclusive below and
    /// exclusive above.
    pub fn sample_single<E: EntropySource>(low: &BigUint, high: &BigUint, rng: &mut E) -> (r:
        Result<BigUint, UniformError>)
        requires
            low.wf(),
            high.wf(),
            low.value() < high.value(),
            high@.len() <= usize::MAX as nat / 64,
        ensures
            r is Ok,
            r is Ok ==> r->Ok_0.wf() && low.value() <= r->Ok_0.value() < high.value(),
            final(rng).entropy() <= old(rng).entropy(),
    {
        Ok(rng.random_biguint_range(low, high))
    }
}

/// The back-end uniform sampler for `BigInt`: the base keeps its sign,
/// the span is a magnitude.
#[derive(Clone, Debug)]
pub struct UniformBigInt {
    base: BigInt,
    len: BigUint,
}

impl UniformBigInt {
    /// The cached lower bound.
    pub closed spec fn base_spec(&self) -> BigInt {
        self.base
    }

    /// The cached strictly positive span.
    pub closed spec fn len_spec(&self) -> BigUint {
        self.len
    }

    pub open spec fn wf(&self) -> bool {
        &&& self.base_spec().wf()
        &&& self.len_spec().wf()
        &&& self.len_spec().value() > 0
        &&& self.len_spec()@.len() <= usize::MAX as nat / 64
        &&& self.base_spec().mag_spec()@.len() < usize::MAX
    }

    /// Construction from an inclusive lower and exclusive upper bound;
    /// an empty range is a typed error, never an abort.
    pub fn new(low: &BigInt, high: &BigInt) -> (r: Result<UniformBigInt, UniformError>)
        requires
            low.wf(),
            high.wf(),
            low.mag_spec()@.len() + 1 <= usize::MAX as nat / 64,
            high.mag_spec()@.len() + 1 <= usize::MAX as nat / 64,
        ensures
            r is Ok <==> low.value() < high.value(),
            r is Ok ==> r->Ok_0.wf() && r->Ok_0.base_spec().value() == low.value()
                && r->Ok_0.len_spec().value() == high.value() - low.value(),
            r is Err ==> r->Err_0 == UniformError::EmptyRange,
    {
        if low.lt(high) {
            let delta = high.sub(low);
            let parts = delta.into_parts();
            Ok(UniformBigInt { len: parts.1, base: low.duplicate() })
        } else {
            Err(UniformError::EmptyRange)
        }
    }

    /// Construction from an inclusive lower and inclusive upper bound.
    pub fn new_inclusive(low: &BigInt, high: &BigInt) -> (r: Result<UniformBigInt, UniformError>)
        requires
            low.wf(),
            high.wf(),
            low.mag_spec()@.len() + 2 <= usize::MAX as nat / 64,
            high.mag_spec()@.len() + 2 <= usize::MAX as nat / 64,
        ensures
            r is Ok <==> low.value() <= high.value(),
            r is Ok ==> r->Ok_0.wf() && r->Ok_0.base_spec().value() == low.value()
                && r->Ok_0.len_spec().value() == high.value() + 1 - low.value(),
            r is Err ==> r->Err_0 == UniformError::EmptyRange,
    {
        if low.le(high) {
            let one = BigInt::from_i64(1);
            let h1 = high.add(&one);
            UniformBigInt::new(low, &h1)
        } else {
            Err(UniformError::EmptyRange)
        }
    }

    /// One draw from the captured range.
    pub fn sample<E: EntropySource>(&self, rng: &mut E) -> (r: BigInt)
        requires
            self.wf(),
        ensures
            r.wf(),
            self.base_spec().value() <= r.value() < self.base_spec().value()
                + self.len_spec().value(),
            final(rng).entropy() <= old(rng).entropy(),
    {
        let d = rng.random_biguint_below(&self.len);
        let dd = BigInt::from_biguint(Sign::Plus, d);
        self.base.add(&dd)
    }

    /// One draw straight from a pair of bounds, inclusive below and
    /// exclusive above.
    pub fn sample_single<E: EntropySource>(low: &BigInt, high: &BigInt, rng: &mut E) -> (r: Result<
        BigInt,
        UniformError,
    >)
        requires
            low.wf(),
            high.wf(),
            low.value() < high.value(),
            low.mag_spec()@.len() + 1 <= usize::MAX as nat / 64,
            high.mag_spec()@.len() + 1 <= usize::MAX as nat / 64,
        ensures
            r is Ok,
            r is Ok ==> r->Ok_0.wf() && low.value() <= r->Ok_0.value() < high.value(),
            final(rng).entropy() <= old(rng).entropy(),
    {
        Ok(rng.random_bigint_range(low, high))
    }
}

/// A distribution of `BigUint` and `BigInt` values of a fixed bit size;
/// every draw is an independent fresh generation.
#[derive(Clone, Copy, Debug)]
pub struct RandomBits {
    bits: u64,
}

impl RandomBits {
    /// The requested bit size.
    pub closed spec fn bits_spec(&self) -> u64 {
        self.bits
    }

    pub fn new(bits: u64) -> (r: RandomBits)
        ensures
            r.bits_spec() == bits,
    {
        RandomBits { bits }
    }

    /// The requested bit size.
    pub fn bit_size(&self) -> (r: u64)
        ensures
            r == self.bits_spec(),
    {
        self.bits
    }

    /// One unsigned draw of the fixed bit size.
    pub fn sample_biguint<E: EntropySource>(&self, rng: &mut E) -> (r: BigUint)
        requires
            (self.bits_spec() as nat) < 32 * (usize::MAX as nat - 1),
        ensures
            r.wf(),
            r.value() < pow2(self.bits_spec() as nat),
            self.bits_spec() == 0 ==> r.value() == 0,
            final(rng).entropy() <= old(rng).entropy(),
    {
        rng.random_biguint(self.bits)
    }

    /// One signed draw of the fixed bit size.
    pub fn sample_bigint<E: EntropySource>(&self, rng: &mut E) -> (r: BigInt)
        requires
            (self.bits_spec() as nat) < 32 * (usize::MAX as nat - 1),
        ensures
            r.wf(),
            -(pow2(self.bits_spec() as nat) as int) < r.value() < pow2(
                self.bits_spec() as nat,
            ) as int,
            self.bits_spec() == 0 ==> r.value() == 0,
            final(rng).entropy() <= old(rng).entropy(),
    {
        rng.random_bigint(self.bits)
    }
}

} // verus!
