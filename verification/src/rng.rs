//! The entropy source backed by the `rand` crate.
//!
//! `ThreadEntropy` wraps the thread-local generator behind the
//! `EntropySource` contract.  The finite-entropy obligation of that
//! contract is met honestly with a budget counter: a fresh source starts
//! with `u64::MAX` requests' worth of entropy — beyond any reachable
//! draw count — and once the budget is spent (which a real program never
//! observes) it answers with zeros, as the contract describes.
use vstd::prelude::*;
use crate::entropy::EntropySource;

verus! {

#[verifier::external_type_specification]
#[verifier::external_body]
pub struct ExThreadRng(rand::rngs::ThreadRng);

/// Relies on rand::rng: a handle to the thread-local generator.
#[verifier::external_body]
fn fresh_rng() -> rand::rngs::ThreadRng {
    rand::rng()
}

/// Relies on rand::Rng::fill for `[u32]`: overwrites the slice in place
/// with uniform random words, leaving its length unchanged.
#[verifier::external_body]
fn raw_fill_words(rng: &mut rand::rngs::ThreadRng, data: &mut Vec<u32>)
    ensures
        final(data)@.len() == old(data)@.len(),
{
    rand::Rng::fill(rng, data.as_mut_slice());
}

/// Relies on rand::Rng::random for `bool`: a uniform coin.
#[verifier::external_body]
fn raw_coin(rng: &mut rand::rngs::ThreadRng) -> bool {
    rand::Rng::random::<bool>(rng)
}

/// Relies on rand::RngCore::fill_bytes: overwrites the buffer in place
/// with uniform random bytes, leaving its length unchanged.
#[verifier::external_body]
fn raw_fill_bytes(rng: &mut rand::rngs::ThreadRng, data: &mut Vec<u8>)
    ensures
        final(data)@.len() == old(data)@.len(),
{
    rand::RngCore::fill_bytes(rng, data.as_mut_slice());
}

/// The thread-local `rand` generator as an `EntropySource`.
pub struct ThreadEntropy {
    rng: rand::rngs::ThreadRng,
    budget: u64,
}

impl ThreadEntropy {
    pub fn new() -> (r: ThreadEntropy)
        ensures
            r.entropy() == u64::MAX as nat,
    {
        ThreadEntropy { rng: fresh_rng(), budget: u64::MAX }
    }
}

impl EntropySource for ThreadEntropy {
    closed spec fn entropy(&self) -> nat {
        self.budget as nat
    }

    fn fill_words(&mut self, data: &mut Vec<u32>) {
        if self.budget == 0 {
            let n = data.len();
            let mut i: usize = 0;
            while i < n
                invariant
                    i <= n,
                    data@.len() == n,
                    forall|j: int| 0 <= j < i ==> data@[j] == 0,
                decreases n - i,
            {
                data[i] = 0;
                i = i + 1;
            }
        } else {
            self.budget = self.budget - 1;
            raw_fill_words(&mut self.rng, data);
        }
    }

    fn coin(&mut self) -> (r: bool) {
        if self.budget == 0 {
            false
        } else {
            self.budget = self.budget - 1;
            raw_coin(&mut self.rng)
        }
    }

    fn fill_bytes(&mut self, data: &mut Vec<u8>) {
        if self.budget == 0 {
            let n = data.len();
            let mut i: usize = 0;
            while i < n
                invariant
                    i <= n,
                    data@.len() == n,
                decreases n - i,
            {
                data[i] = 0;
                i = i + 1;
            }
        } else {
            self.budget = self.budget - 1;
            raw_fill_bytes(&mut self.rng, data);
        }
    }
}

} // verus!
