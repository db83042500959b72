//! Random generation of big integers.
//!
//! The extension trait `RandBigInt` equips every entropy source with
//! uniform draws of unsigned and signed big integers: fixed-bit-size
//! generation, bounded sampling by rejection, and ranged sampling.
//!
//! Generation works in 32-bit words; storage works in 64-bit words.  A
//! draw of `n` bits fills `ceil(n / 32)` generation words, masks the top
//! word down to `n mod 32` bits, and packs the generation words pairwise
//! into native words — a packing proved value-preserving — before the
//! result is put in canonical form.
use vstd::prelude::*;
use vstd::arithmetic::power2::*;
use vstd::arithmetic::div_mod::{lemma_fundamental_div_mod, lemma_multiply_divide_lt, lemma_div_of0};
use vstd::bits::lemma_u32_shl_is_mul;
use crate::biguint::{BigUint, lemma_canonical_len_lt};
use crate::bigint::{BigInt, Sign};
use crate::entropy::EntropySource;
use crate::words::{
    gen_all_zero, gen_value, is_packing, lemma_gen_bound, lemma_gen_bound_masked, lemma_gen_zero,
    lemma_pack_preserves_value, packed_word,
};

verus! {

/// 2^e as a 32-bit word.
fn pow2_u32(e: u32) -> (r: u32)
    requires
        e < 32,
    ensures
        r as nat == pow2(e as nat),
        r >= 1,
{
    proof {
        lemma2_to64();
        lemma_pow2_strictly_increases(e as nat, 32);
        lemma_u32_shl_is_mul(1u32, e);
    }
    1u32 << e
}

/// Fills the buffer with uniform random words, then masks the last word
/// down to `rem` bits; `rem == 0` asks for no masking.  Afterwards every
/// bit position below the requested count is uniform and every position
/// at or above it is zero.
fn random_bits<E: EntropySource>(rng: &mut E, data: &mut Vec<u32>, rem: u64)
    requires
        rem < 32,
        rem > 0 ==> old(data)@.len() > 0,
    ensures
        final(data)@.len() == old(data)@.len(),
        rem > 0 ==> (final(data)@[final(data)@.len() - 1] as nat) < pow2(rem as nat),
        final(rng).entropy() <= old(rng).entropy(),
        final(rng).entropy() < old(rng).entropy() || gen_all_zero(final(data)@),
{
    rng.fill_words(data);
    if rem > 0 {
        let last = data.len() - 1;
        let w = data[last];
        let p = pow2_u32((32 - rem) as u32);
        let m = w / p;
        proof {
            lemma2_to64();
            lemma_pow2_adds((32 - rem) as nat, rem as nat);
            lemma_multiply_divide_lt(w as int, p as int, pow2(rem as nat) as int);
            if w == 0 {
                lemma_div_of0(p as int);
            }
        }
        data[last] = m;
    }
}

/// A trait for sampling random big integers, adopted by every entropy
/// source.
pub trait RandBigInt: EntropySource {
    /// Generate a random `BigUint` of the given bit size.
    fn random_biguint(&mut self, bit_size: u64) -> (r: BigUint)
        requires
            (bit_size as nat) < 32 * (usize::MAX as nat - 1),
        ensures
            r.wf(),
            r.value() < pow2(bit_size as nat),
            bit_size == 0 ==> r.value() == 0,
            final(self).entropy() <= old(self).entropy(),
            final(self).entropy() < old(self).entropy() || r.value() == 0,
    ;

    /// Generate a random `BigInt` of the given bit size.
    fn random_bigint(&mut self, bit_size: u64) -> (r: BigInt)
        requires
            (bit_size as nat) < 32 * (usize::MAX as nat - 1),
        ensures
            r.wf(),
            -(pow2(bit_size as nat) as int) < r.value() < pow2(bit_size as nat) as int,
            bit_size == 0 ==> r.value() == 0,
            final(self).entropy() <= old(self).entropy(),
    ;

    /// Generate a random `BigUint` less than the given bound.  The bound
    /// must not be zero.
    fn random_biguint_below(&mut self, bound: &BigUint) -> (r: BigUint)
        requires
            bound.wf(),
            bound.value() > 0,
            bound@.len() <= usize::MAX as nat / 64,
        ensures
            r.wf(),
            r.value() < bound.value(),
            r@.len() <= bound@.len(),
            final(self).entropy() <= old(self).entropy(),
    ;

    /// Generate a random `BigUint` within the given range; the lower
    /// bound is inclusive, the upper bound exclusive, and the upper bound
    /// must be the greater.
    fn random_biguint_range(&mut self, lbound: &BigUint, ubound: &BigUint) -> (r: BigUint)
        requires
            lbound.wf(),
            ubound.wf(),
            lbound.value() < ubound.value(),
            ubound@.len() <= usize::MAX as nat / 64,
        ensures
            r.wf(),
            lbound.value() <= r.value() < ubound.value(),
            final(self).entropy() <= old(self).entropy(),
    ;

    /// Generate a random `BigInt` within the given range; the lower
    /// bound is inclusive, the upper bound exclusive, and the upper bound
    /// must be the greater.
    fn random_bigint_range(&mut self, lbound: &BigInt, ubound: &BigInt) -> (r: BigInt)
        requires
            lbound.wf(),
            ubound.wf(),
            lbound.value() < ubound.value(),
            lbound.mag_spec()@.len() + 1 <= usize::MAX as nat / 64,
            ubound.mag_spec()@.len() + 1 <= usize::MAX as nat / 64,
        ensures
            r.wf(),
            lbound.value() <= r.value() < ubound.value(),
            final(self).entropy() <= old(self).entropy(),
    ;
}

impl<E: EntropySource> RandBigInt for E {
    fn random_biguint(&mut self, bit_size: u64) -> (r: BigUint) {
        let digits = bit_size / 32;
        let rem = bit_size % 32;
        proof {
            lemma_fundamental_div_mod(bit_size as int, 32);
        }
        let len64: u64 = digits + if rem > 0 {
            1
        } else {
            0
        };
        let len: usize = len64 as usize;
        let mut gwords: Vec<u32> = Vec::new();
        let mut i: usize = 0;
        while i < len
            invariant
                i <= len,
                gwords@.len() == i,
            decreases len - i,
        {
            gwords.push(0);
            i = i + 1;
        }
        random_bits(self, &mut gwords, rem);
        let nlen: usize = (len + 1) / 2;
        let mut nwords: Vec<u64> = Vec::new();
        let mut k: usize = 0;
        while k < nlen
            invariant
                k <= nlen,
                nlen == (len + 1) / 2,
                len < usize::MAX,
                gwords@.len() == len,
                nwords@.len() == k,
                forall|j: int| 0 <= j < k ==> nwords@[j] as nat == packed_word(gwords@, j),
            decreases nlen - k,
        {
            let lo: u64 = gwords[2 * k] as u64;
            let hi: u64 = if 2 * k + 1 < len {
                gwords[2 * k + 1] as u64
            } else {
                0
            };
            let w: u64 = lo + 0x1_0000_0000u64 * hi;
            nwords.push(w);
            k = k + 1;
        }
        proof {
            assert(is_packing(gwords@, nwords@));
            lemma_pack_preserves_value(gwords@, nwords@);
        }
        let r = BigUint::from_words(nwords);
        proof {
            lemma2_to64();
            if bit_size == 0 {
                assert(gwords@.len() == 0);
                assert(gen_value(gwords@) == 0);
                assert(pow2(0) == 1);
            } else if rem > 0 {
                lemma_gen_bound_masked(gwords@, rem as nat);
                assert(32 * ((len - 1) as nat) + rem as nat == bit_size as nat);
            } else {
                lemma_gen_bound(gwords@);
                assert(32 * (len as nat) == bit_size as nat);
            }
            if gen_all_zero(gwords@) {
                lemma_gen_zero(gwords@);
            }
        }
        r
    }

    fn random_bigint(&mut self, bit_size: u64) -> (r: BigInt) {
        proof {
            lemma_pow2_pos(bit_size as nat);
        }
        loop
            invariant
                self.entropy() <= old(self).entropy(),
                (bit_size as nat) < 32 * (usize::MAX as nat - 1),
                pow2(bit_size as nat) > 0,
            decreases self.entropy(),
        {
            let m = self.random_biguint(bit_size);
            if m.is_zero() {
                if self.coin() {
                    // A zero draw and a true coin: try the whole draw again,
                    // so that zero is not twice as likely as any other
                    // magnitude.
                    continue;
                } else {
                    return BigInt::zero();
                }
            } else {
                let sign = if self.coin() {
                    Sign::Plus
                } else {
                    Sign::Minus
                };
                return BigInt::from_biguint(sign, m);
            }
        }
    }

    fn random_biguint_below(&mut self, bound: &BigUint) -> (r: BigUint) {
        let bits = bound.bits();
        loop
            invariant
                self.entropy() <= old(self).entropy(),
                bound.wf(),
                bound.value() > 0,
                bound@.len() <= usize::MAX as nat / 64,
                bound.value() < pow2(bits as nat),
                bits as nat <= 64 * bound@.len(),
            decreases self.entropy(),
        {
            let n = self.random_biguint(bits);
            if n.lt(bound) {
                proof {
                    if n@.len() > bound@.len() {
                        lemma_canonical_len_lt(bound, &n);
                    }
                }
                return n;
            }
        }
    }

    fn random_biguint_range(&mut self, lbound: &BigUint, ubound: &BigUint) -> (r: BigUint) {
        if lbound.is_zero() {
            self.random_biguint_below(ubound)
        } else {
            proof {
                if lbound@.len() > ubound@.len() {
                    lemma_canonical_len_lt(ubound, lbound);
                }
            }
            let delta = ubound.sub(lbound);
            let d = self.random_biguint_below(&delta);
            lbound.add(&d)
        }
    }

    fn random_bigint_range(&mut self, lbound: &BigInt, ubound: &BigInt) -> (r: BigInt) {
        if lbound.is_zero() {
            let d = self.random_biguint_below(ubound.magnitude());
            BigInt::from_biguint(Sign::Plus, d)
        } else if ubound.is_zero() {
            let d = self.random_biguint_below(lbound.magnitude());
            let dd = BigInt::from_biguint(Sign::Plus, d);
            lbound.add(&dd)
        } else {
            let delta = ubound.sub(lbound);
            let d = self.random_biguint_below(delta.magnitude());
            let dd = BigInt::from_biguint(Sign::Plus, d);
            lbound.add(&dd)
        }
    }
}

} // verus!
