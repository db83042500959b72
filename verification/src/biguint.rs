//! Canonical unsigned arbitrary-precision integers.
//!
//! A `BigUint` is an ordered sequence of native 64-bit words,
//! least-significant first, with no trailing (most-significant) zero word;
//! the value zero is the empty sequence.  The operations here are the
//! arithmetic primitives the sampling code needs: construction from raw
//! words, zero test, comparison, bit length, addition and subtraction.
use vstd::prelude::*;
use vstd::arithmetic::power2::*;
use vstd::arithmetic::div_mod::*;
use crate::words::{
    bit_len, lemma_fixed_len_injective, lemma_wide_bound, lemma_wide_cmp_at,
    lemma_wide_drop_last_zero, lemma_wide_lower, lemma_wide_snoc, lemma_prefix_stable, limb,
    prefix_value, wide_value,
};

verus! {

/// Canonical unsigned big integer: 64-bit words, least-significant first,
/// no trailing zero word.
#[derive(Clone, Debug)]
pub struct BigUint {
    words: Vec<u64>,
}

impl View for BigUint {
    type V = Seq<u64>;

    closed spec fn view(&self) -> Seq<u64> {
        self.words@
    }
}

impl BigUint {
    /// Canonical form: no trailing zero word.
    pub open spec fn wf(&self) -> bool {
        self@.len() == 0 || self@[self@.len() - 1] != 0
    }

    /// The numeric value, reading the words in base 2^64.
    pub open spec fn value(&self) -> nat {
        wide_value(self@)
    }

    pub fn zero() -> (r: BigUint)
        ensures
            r.wf(),
            r.value() == 0,
            r@.len() == 0,
    {
        let r = BigUint { words: Vec::new() };
        proof {
            assert(r@ =~= Seq::<u64>::empty());
        }
        r
    }

    /// Builds a canonical magnitude from a raw little-endian word sequence
    /// by dropping trailing zero words.
    pub fn from_words(words: Vec<u64>) -> (r: BigUint)
        ensures
            r.wf(),
            r.value() == wide_value(words@),
            r@.len() <= words@.len(),
    {
        let mut words = words;
        let ghost orig = words@;
        loop
            invariant
                wide_value(words@) == wide_value(orig),
                words@.len() <= orig.len(),
            ensures
                wide_value(words@) == wide_value(orig),
                words@.len() <= orig.len(),
                words@.len() == 0 || words@[words@.len() - 1] != 0,
            decreases words@.len(),
        {
            let n = words.len();
            if n == 0 {
                break;
            }
            if words[n - 1] != 0 {
                break;
            }
            proof {
                lemma_wide_drop_last_zero(words@);
                assert(words@.subrange(0, words@.len() - 1) =~= words@.drop_last());
            }
            words.pop();
        }
        BigUint { words }
    }

    pub fn from_u64(v: u64) -> (r: BigUint)
        ensures
            r.wf(),
            r.value() == v,
            r@.len() <= 1,
    {
        if v == 0 {
            BigUint::zero()
        } else {
            let mut words: Vec<u64> = Vec::new();
            words.push(v);
            let r = BigUint { words };
            proof {
                assert(r@ =~= Seq::<u64>::empty().push(v));
                lemma_wide_snoc(Seq::<u64>::empty(), v);
                assert(wide_value(Seq::<u64>::empty()) == 0);
                lemma2_to64();
                assert(pow2(64 * 0) == 1);
            }
            r
        }
    }

    /// A fresh magnitude with the same words.
    pub fn duplicate(&self) -> (r: BigUint)
        ensures
            r@ == self@,
    {
        let mut out: Vec<u64> = Vec::new();
        let n = self.words.len();
        let mut i: usize = 0;
        while i < n
            invariant
                i <= n,
                n == self@.len(),
                out@ == self@.take(i as int),
            decreases n - i,
        {
            out.push(self.words[i]);
            proof {
                assert(out@ =~= self@.take(i + 1));
            }
            i = i + 1;
        }
        proof {
            assert(self@.take(n as int) =~= self@);
        }
        BigUint { words: out }
    }

    /// How many native words the magnitude holds.
    pub fn word_count(&self) -> (r: usize)
        ensures
            r == self@.len(),
    {
        self.words.len()
    }

    pub fn is_zero(&self) -> (r: bool)
        requires
            self.wf(),
        ensures
            r == (self.value() == 0),
    {
        let r = self.words.len() == 0;
        proof {
            if self@.len() > 0 {
                lemma_wide_lower(self@);
                lemma_pow2_pos(64 * ((self@.len() - 1) as nat));
            }
        }
        r
    }

    /// Word-for-word equality; on canonical magnitudes this is value
    /// equality, since a canonical representation is unique.
    pub fn equals(&self, other: &BigUint) -> (r: bool)
        requires
            self.wf(),
            other.wf(),
        ensures
            r == (self.value() == other.value()),
            r == (self@ == other@),
    {
        let n = self.words.len();
        if n != other.words.len() {
            proof {
                if self@.len() < other@.len() {
                    lemma_canonical_len_lt(self, other);
                } else {
                    lemma_canonical_len_lt(other, self);
                }
            }
            return false;
        }
        let mut i: usize = 0;
        while i < n
            invariant
                i <= n,
                n == self@.len(),
                n == other@.len(),
                forall|j: int| 0 <= j < i ==> self@[j] == other@[j],
            decreases n - i,
        {
            if self.words[i] != other.words[i] {
                proof {
                    if self.value() == other.value() {
                        lemma_fixed_len_injective(self@, other@);
                    }
                }
                return false;
            }
            i = i + 1;
        }
        proof {
            assert(self@ =~= other@);
        }
        true
    }

    /// Strict comparison by value.
    pub fn lt(&self, other: &BigUint) -> (r: bool)
        requires
            self.wf(),
            other.wf(),
        ensures
            r == (self.value() < other.value()),
    {
        let n = self.words.len();
        let m = other.words.len();
        if n != m {
            proof {
                if n < m {
                    lemma_canonical_len_lt(self, other);
                } else {
                    lemma_canonical_len_lt(other, self);
                }
            }
            return n < m;
        }
        let mut i: usize = n;
        while i > 0
            invariant
                i <= n,
                n == self@.len(),
                n == other@.len(),
                forall|j: int| i <= j < n ==> self@[j] == other@[j],
            decreases i,
        {
            i = i - 1;
            let a = self.words[i];
            let b = other.words[i];
            if a != b {
                proof {
                    if a < b {
                        lemma_wide_cmp_at(self@, other@, i as int);
                    } else {
                        lemma_wide_cmp_at(other@, self@, i as int);
                    }
                }
                return a < b;
            }
        }
        proof {
            assert(self@ =~= other@);
        }
        false
    }

    /// Non-strict comparison by value.
    pub fn le(&self, other: &BigUint) -> (r: bool)
        requires
            self.wf(),
            other.wf(),
        ensures
            r == (self.value() <= other.value()),
    {
        !other.lt(self)
    }

    /// The bit length: the least `b` with `value < 2^b`; zero has bit
    /// length zero.
    pub fn bits(&self) -> (r: u64)
        requires
            self.wf(),
            64 * self@.len() <= u64::MAX,
        ensures
            self.value() < pow2(r as nat),
            self.value() > 0 ==> self.value() >= pow2((r - 1) as nat),
            (r == 0) == (self.value() == 0),
            r as nat <= 64 * self@.len(),
    {
        let n = self.words.len();
        if n == 0 {
            proof {
                lemma2_to64();
                assert(pow2(0) == 1);
            }
            return 0;
        }
        let top = self.words[n - 1];
        proof {
            lemma2_to64();
            lemma_bit_len_le(top as nat, 64);
        }
        let mut w = top;
        let mut c: u64 = 0;
        while w > 0
            invariant
                bit_len(top as nat) == c + bit_len(w as nat),
                bit_len(top as nat) <= 64,
            decreases w,
        {
            proof {
                assert(bit_len(w as nat) == 1 + bit_len((w as nat) / 2));
            }
            w = w / 2;
            c = c + 1;
        }
        proof {
            lemma_bit_len_bounds(top as nat);
            lemma_bits_of_top(self@, c as nat);
            assert(64 * self@.len() <= u64::MAX);
        }
        (n as u64 - 1) * 64 + c
    }

    /// Sum of two magnitudes.
    pub fn add(&self, other: &BigUint) -> (r: BigUint)
        requires
            self.wf(),
            other.wf(),
            self@.len() < usize::MAX,
            other@.len() < usize::MAX,
        ensures
            r.wf(),
            r.value() == self.value() + other.value(),
            r@.len() <= (if self@.len() >= other@.len() {
                self@.len()
            } else {
                other@.len()
            }) + 1,
    {
        let la = self.words.len();
        let lb = other.words.len();
        let n = if la >= lb {
            la
        } else {
            lb
        };
        let mut out: Vec<u64> = Vec::new();
        let mut carry: u64 = 0;
        let mut i: usize = 0;
        proof {
            lemma2_to64();
            lemma2_to64_rest();
        }
        while i < n
            invariant
                i <= n,
                la == self@.len(),
                lb == other@.len(),
                n == if la >= lb {
                    la
                } else {
                    lb
                },
                out@.len() == i,
                carry <= 1,
                wide_value(out@) + (carry as nat) * pow2(64 * (i as nat)) == prefix_value(
                    self@,
                    i as nat,
                ) + prefix_value(other@, i as nat),
                pow2(64) == 0x1_0000_0000_0000_0000,
            decreases n - i,
        {
            let a: u64 = if i < la {
                self.words[i]
            } else {
                0
            };
            let b: u64 = if i < lb {
                other.words[i]
            } else {
                0
            };
            let s: u128 = a as u128 + b as u128 + carry as u128;
            let lo: u64 = (s % 0x1_0000_0000_0000_0000u128) as u64;
            let nc: u64 = (s / 0x1_0000_0000_0000_0000u128) as u64;
            proof {
                lemma_add_step(out@, self@, other@, i as nat, a, b, carry, lo, nc);
            }
            out.push(lo);
            carry = nc;
            i = i + 1;
        }
        proof {
            lemma_prefix_stable(self@, n as nat);
            lemma_prefix_stable(other@, n as nat);
        }
        if carry > 0 {
            let ghost o1 = out@;
            proof {
                lemma_wide_snoc(out@, carry);
                assert(o1.len() == i as nat);
                assert(wide_value(o1) + (carry as nat) * pow2(64 * (i as nat)) == self.value()
                    + other.value());
                assert(wide_value(o1.push(carry)) == wide_value(o1) + (carry as nat) * pow2(
                    64 * o1.len(),
                ));
            }
            out.push(carry);
            proof {
                assert(out@ == o1.push(carry));
                assert(wide_value(out@) == self.value() + other.value());
            }
        } else {
            proof {
                assert(wide_value(out@) + (carry as nat) * pow2(64 * (i as nat)) == prefix_value(
                    self@,
                    i as nat,
                ) + prefix_value(other@, i as nat));
                assert(carry == 0);
                assert((carry as nat) * pow2(64 * (i as nat)) == 0) by (nonlinear_arith)
                    requires carry == 0,
                ;
                assert(prefix_value(self@, i as nat) == self.value());
                assert(prefix_value(other@, i as nat) == other.value());
                assert(wide_value(out@) == self.value() + other.value());
            }
        }
        let r = BigUint::from_words(out);
        r
    }

    /// Difference of two magnitudes; the subtrahend must not exceed the
    /// minuend.
    pub fn sub(&self, other: &BigUint) -> (r: BigUint)
        requires
            self.wf(),
            other.wf(),
            other.value() <= self.value(),
        ensures
            r.wf(),
            r.value() == self.value() - other.value(),
            r@.len() <= self@.len(),
    {
        let la = self.words.len();
        let lb = other.words.len();
        proof {
            if la < lb {
                lemma_canonical_len_lt(self, other);
            }
        }
        let mut out: Vec<u64> = Vec::new();
        let mut borrow: u64 = 0;
        let mut i: usize = 0;
        proof {
            lemma2_to64();
            lemma2_to64_rest();
        }
        while i < la
            invariant
                i <= la,
                lb <= la,
                la == self@.len(),
                lb == other@.len(),
                out@.len() == i,
                borrow <= 1,
                wide_value(out@) == prefix_value(self@, i as nat) - prefix_value(
                    other@,
                    i as nat,
                ) + (borrow as nat) * pow2(64 * (i as nat)),
                pow2(64) == 0x1_0000_0000_0000_0000,
            decreases la - i,
        {
            let a: u64 = self.words[i];
            let b: u64 = if i < lb {
                other.words[i]
            } else {
                0
            };
            let need: u128 = b as u128 + borrow as u128;
            let lo: u64;
            let nb: u64;
            if a as u128 >= need {
                lo = a - (need as u64);
                nb = 0;
            } else {
                let big: u128 = 0x1_0000_0000_0000_0000u128 + a as u128;
                lo = (big - need) as u64;
                nb = 1;
            }
            proof {
                lemma_sub_step(out@, self@, other@, i as nat, a, b, borrow, lo, nb);
            }
            out.push(lo);
            borrow = nb;
            i = i + 1;
        }
        proof {
            lemma_prefix_stable(self@, la as nat);
            lemma_prefix_stable(other@, la as nat);
            if borrow == 1 {
                lemma_wide_bound(out@);
                assert(false);
            }
        }
        let r = BigUint::from_words(out);
        r
    }
}

/// Canonical form is unique: two canonical magnitudes with the same
/// value hold the same words.
pub proof fn lemma_canonical_injective(a: &BigUint, b: &BigUint)
    requires
        a.wf(),
        b.wf(),
        a.value() == b.value(),
    ensures
        a@ == b@,
{
    if a@.len() < b@.len() {
        lemma_canonical_len_lt(a, b);
    } else if b@.len() < a@.len() {
        lemma_canonical_len_lt(b, a);
    } else {
        lemma_fixed_len_injective(a@, b@);
    }
}

/// Of two canonical magnitudes, one with fewer words has the smaller
/// value.
pub proof fn lemma_canonical_len_lt(a: &BigUint, b: &BigUint)
    requires
        a.wf(),
        b.wf(),
        a@.len() < b@.len(),
    ensures
        a.value() < b.value(),
{
    lemma_wide_bound(a@);
    lemma_wide_lower(b@);
    if 64 * a@.len() < 64 * ((b@.len() - 1) as nat) {
        lemma_pow2_strictly_increases(64 * a@.len(), 64 * ((b@.len() - 1) as nat));
    }
}

proof fn lemma_bit_len_le(w: nat, k: nat)
    requires
        w < pow2(k),
    ensures
        bit_len(w) <= k,
    decreases w,
{
    if w > 0 {
        if k == 0 {
            lemma2_to64();
            assert(pow2(0) == 1);
        } else {
            lemma_pow2_unfold(k);
            lemma_bit_len_le(w / 2, (k - 1) as nat);
        }
    }
}

proof fn lemma_bit_len_bounds(w: nat)
    ensures
        w < pow2(bit_len(w)),
        w > 0 ==> w >= pow2((bit_len(w) - 1) as nat),
        w == 0 ==> bit_len(w) == 0,
        bit_len(w) > 0 ==> w > 0,
    decreases w,
{
    lemma2_to64();
    if w == 0 {
        assert(pow2(0) == 1);
    } else {
        lemma_bit_len_bounds(w / 2);
        lemma_pow2_unfold(bit_len(w));
        assert(w < pow2(bit_len(w))) by {
            assert(w / 2 < pow2((bit_len(w) - 1) as nat));
            assert(w <= 2 * (w / 2) + 1);
            assert(pow2(bit_len(w)) == 2 * pow2((bit_len(w) - 1) as nat));
        }
        if w / 2 > 0 {
            lemma_pow2_unfold((bit_len(w) - 1) as nat);
            assert(w >= 2 * (w / 2));
        } else {
            assert(w == 1);
            assert(bit_len(w) == 1);
            assert(pow2(0) == 1);
        }
    }
}

/// A non-empty canonical sequence whose top word needs `c` bits has a
/// value between `2^(64 (len-1) + c - 1)` and `2^(64 (len-1) + c)`.
proof fn lemma_bits_of_top(s: Seq<u64>, c: nat)
    requires
        s.len() > 0,
        s[s.len() - 1] != 0,
        c == bit_len(s[s.len() - 1] as nat),
        (s[s.len() - 1] as nat) < pow2(c),
        (s[s.len() - 1] as nat) >= pow2((c - 1) as nat),
        c >= 1,
        c <= 64,
    ensures
        wide_value(s) < pow2(64 * ((s.len() - 1) as nat) + c),
        wide_value(s) >= pow2((64 * ((s.len() - 1) as nat) + c - 1) as nat),
        wide_value(s) > 0,
{
    let t = s.drop_last();
    let top = s.last() as nat;
    assert(t.push(s.last()) =~= s);
    lemma_wide_snoc(t, s.last());
    lemma_wide_bound(t);
    let p = pow2(64 * t.len());
    lemma_pow2_adds(64 * t.len(), c);
    lemma_pow2_adds(64 * t.len(), (c - 1) as nat);
    lemma_pow2_pos(64 * t.len());
    lemma_pow2_pos((c - 1) as nat);
    assert(wide_value(t) + top * p < p * pow2(c)) by (nonlinear_arith)
        requires wide_value(t) < p, top < pow2(c), p > 0,
    ;
    assert(top * p >= pow2((c - 1) as nat) * p) by (nonlinear_arith)
        requires top >= pow2((c - 1) as nat), p > 0,
    ;
    assert(64 * t.len() + (c - 1) == (64 * ((s.len() - 1) as nat) + c - 1) as nat);
    assert(pow2((c - 1) as nat) * p > 0) by (nonlinear_arith)
        requires pow2((c - 1) as nat) > 0, p > 0,
    ;
}

/// One column of the school addition: pushing the low word of
/// `a + b + carry` keeps the running-sum invariant.
proof fn lemma_add_step(
    out: Seq<u64>,
    sa: Seq<u64>,
    sb: Seq<u64>,
    i: nat,
    a: u64,
    b: u64,
    carry: u64,
    lo: u64,
    nc: u64,
)
    requires
        out.len() == i,
        carry <= 1,
        a == limb(sa, i as int),
        b == limb(sb, i as int),
        wide_value(out) + (carry as nat) * pow2(64 * i) == prefix_value(sa, i) + prefix_value(
            sb,
            i,
        ),
        pow2(64) == 0x1_0000_0000_0000_0000,
        (lo as nat) + (nc as nat) * pow2(64) == (a as nat) + (b as nat) + (carry as nat),
    ensures
        nc <= 1,
        wide_value(out.push(lo)) + (nc as nat) * pow2(64 * (i + 1)) == prefix_value(sa, i + 1)
            + prefix_value(sb, i + 1),
{
    lemma_wide_snoc(out, lo);
    lemma_pow2_adds(64, 64 * i);
    lemma_pow2_pos(64 * i);
    assert(64 * (i + 1) == 64 + 64 * i);
    let p = pow2(64 * i);
    assert(nc <= 1) by (nonlinear_arith)
        requires
            (lo as nat) + (nc as nat) * pow2(64) == (a as nat) + (b as nat) + (carry as nat),
            pow2(64) == 0x1_0000_0000_0000_0000,
            a <= 0xffff_ffff_ffff_ffffu64,
            b <= 0xffff_ffff_ffff_ffffu64,
            carry <= 1,
            lo >= 0,
            nc >= 0,
    ;
    assert(prefix_value(sa, i + 1) == prefix_value(sa, i) + (a as nat) * p);
    assert(prefix_value(sb, i + 1) == prefix_value(sb, i) + (b as nat) * p);
    assert(wide_value(out) + (lo as nat) * p + (nc as nat) * (pow2(64) * p) == wide_value(out) + (
    carry as nat) * p + (a as nat) * p + (b as nat) * p) by (nonlinear_arith)
        requires
            (lo as nat) + (nc as nat) * pow2(64) == (a as nat) + (b as nat) + (carry as nat),
            p > 0,
    ;
}

/// One column of the school subtraction.
proof fn lemma_sub_step(
    out: Seq<u64>,
    sa: Seq<u64>,
    sb: Seq<u64>,
    i: nat,
    a: u64,
    b: u64,
    borrow: u64,
    lo: u64,
    nb: u64,
)
    requires
        out.len() == i,
        borrow <= 1,
        nb <= 1,
        a == limb(sa, i as int),
        b == limb(sb, i as int),
        wide_value(out) == prefix_value(sa, i) - prefix_value(sb, i) + (borrow as nat) * pow2(
            64 * i,
        ),
        pow2(64) == 0x1_0000_0000_0000_0000,
        (lo as int) - (nb as int) * pow2(64) == (a as int) - (b as int) - (borrow as int),
    ensures
        wide_value(out.push(lo)) == prefix_value(sa, i + 1) - prefix_value(sb, i + 1) + (
        nb as nat) * pow2(64 * (i + 1)),
{
    lemma_wide_snoc(out, lo);
    lemma_pow2_adds(64, 64 * i);
    lemma_pow2_pos(64 * i);
    assert(64 * (i + 1) == 64 + 64 * i);
    let p = pow2(64 * i);
    assert(prefix_value(sa, i + 1) == prefix_value(sa, i) + (a as nat) * p);
    assert(prefix_value(sb, i + 1) == prefix_value(sb, i) + (b as nat) * p);
    assert(wide_value(out) + (lo as int) * p == prefix_value(sa, i) + (a as int) * p - (
    prefix_value(sb, i) + (b as int) * p) + (nb as int) * (pow2(64) * p)) by (nonlinear_arith)
        requires
            (lo as int) - (nb as int) * pow2(64) == (a as int) - (b as int) - (borrow as int),
            wide_value(out) == prefix_value(sa, i) - prefix_value(sb, i) + (borrow as nat) * p,
            p > 0,
    ;
}

} // verus!
