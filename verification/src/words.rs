//! Mathematical model of limb sequences.
//!
//! A magnitude is a sequence of fixed-width words, least-significant first.
//! Two word widths appear: the 32-bit generation width used when drawing
//! random bits, and the 64-bit native width used for storage.  This module
//! defines the numeric value of a word sequence in either width and proves
//! the facts the rest of the library needs: bounds, prefix decompositions,
//! and the value-preservation of packing generation words into native words.
use vstd::prelude::*;
use vstd::arithmetic::power2::*;
use vstd::arithmetic::div_mod::*;

verus! {

/// Value of a sequence of native (64-bit) words, least-significant first.
pub open spec fn wide_value(s: Seq<u64>) -> nat
    decreases s.len(),
{
    if s.len() == 0 {
        0
    } else {
        (s[0] as nat) + pow2(64) * wide_value(s.skip(1))
    }
}

/// Value of a sequence of generation (32-bit) words, least-significant first.
pub open spec fn gen_value(s: Seq<u32>) -> nat
    decreases s.len(),
{
    if s.len() == 0 {
        0
    } else {
        (s[0] as nat) + pow2(32) * gen_value(s.skip(1))
    }
}

pub open spec fn gen_all_zero(s: Seq<u32>) -> bool {
    forall|i: int| 0 <= i < s.len() ==> s[i] == 0
}

/// The word at position `i`, reading positions past the end as zero.
pub open spec fn limb(s: Seq<u64>, i: int) -> u64 {
    if 0 <= i < s.len() {
        s[i]
    } else {
        0
    }
}

/// Value of the first `i` limbs, with implicit zero padding past the end.
pub open spec fn prefix_value(s: Seq<u64>, i: nat) -> nat
    decreases i,
{
    if i == 0 {
        0
    } else {
        prefix_value(s, (i - 1) as nat) + (limb(s, i - 1) as nat) * pow2(64 * ((i - 1) as nat))
    }
}

/// Number of bits needed to write `w` in binary; zero needs none.
pub open spec fn bit_len(w: nat) -> nat
    decreases w,
{
    if w == 0 {
        0
    } else {
        1 + bit_len(w / 2)
    }
}

pub proof fn lemma_wide_snoc(s: Seq<u64>, w: u64)
    ensures
        wide_value(s.push(w)) == wide_value(s) + (w as nat) * pow2(64 * s.len()),
    decreases s.len(),
{
    if s.len() == 0 {
        assert(s.push(w).skip(1) =~= Seq::<u64>::empty());
        assert(wide_value(Seq::<u64>::empty()) == 0);
        assert(s.push(w)[0] == w);
        assert(s.push(w).len() == 1);
        assert(wide_value(s.push(w)) == (s.push(w)[0] as nat) + pow2(64) * wide_value(
            s.push(w).skip(1),
        ));
        assert(wide_value(s.push(w)) == (w as nat) + pow2(64) * 0);
        lemma2_to64();
        assert(pow2(0) == 1);
    } else {
        lemma_wide_snoc(s.skip(1), w);
        assert(s.push(w).skip(1) =~= s.skip(1).push(w));
        lemma_pow2_adds(64, 64 * ((s.len() - 1) as nat));
        assert(64 * s.len() == 64 + 64 * ((s.len() - 1) as nat));
        let a = s[0] as nat;
        let v = wide_value(s.skip(1));
        let p = pow2(64 * ((s.len() - 1) as nat));
        assert(wide_value(s.push(w)) == a + pow2(64) * (v + (w as nat) * p));
        assert(pow2(64) * (v + (w as nat) * p) == pow2(64) * v + (w as nat) * (pow2(64) * p))
            by (nonlinear_arith);
    }
}

pub proof fn lemma_wide_bound(s: Seq<u64>)
    ensures
        wide_value(s) < pow2(64 * s.len()),
    decreases s.len(),
{
    if s.len() == 0 {
        lemma2_to64();
        assert(pow2(0) == 1);
    } else {
        lemma_wide_bound(s.skip(1));
        lemma_pow2_adds(64, 64 * ((s.len() - 1) as nat));
        lemma2_to64();
        let v = wide_value(s.skip(1));
        let p = pow2(64 * ((s.len() - 1) as nat));
        assert((s[0] as nat) < pow2(64));
        assert(v + 1 <= p);
        assert(pow2(64) * (v + 1) <= pow2(64) * p) by (nonlinear_arith)
            requires v + 1 <= p,
        ;
        assert((s[0] as nat) + pow2(64) * v < pow2(64) * (v + 1)) by (nonlinear_arith)
            requires (s[0] as nat) < pow2(64),
        ;
    }
}

/// A canonical non-empty sequence is at least as large as the smallest
/// value needing its top limb.
pub proof fn lemma_wide_lower(s: Seq<u64>)
    requires
        s.len() > 0,
        s[s.len() - 1] != 0,
    ensures
        wide_value(s) >= pow2(64 * ((s.len() - 1) as nat)),
{
    let t = s.drop_last();
    assert(t.push(s.last()) =~= s);
    lemma_wide_snoc(t, s.last());
    let p = pow2(64 * t.len());
    assert((s.last() as nat) * p >= 1 * p) by (nonlinear_arith)
        requires s.last() as nat >= 1, p >= 0,
    ;
}

pub proof fn lemma_wide_drop_last_zero(s: Seq<u64>)
    requires
        s.len() > 0,
        s[s.len() - 1] == 0,
    ensures
        wide_value(s) == wide_value(s.drop_last()),
{
    let t = s.drop_last();
    assert(t.push(s.last()) =~= s);
    lemma_wide_snoc(t, s.last());
}

pub proof fn lemma_prefix_agrees(s: Seq<u64>, t: Seq<u64>, i: nat)
    requires
        forall|j: int| 0 <= j < i ==> limb(s, j) == limb(t, j),
    ensures
        prefix_value(s, i) == prefix_value(t, i),
    decreases i,
{
    if i > 0 {
        lemma_prefix_agrees(s, t, (i - 1) as nat);
    }
}

/// Reading a whole sequence limb by limb gives its value.
pub proof fn lemma_prefix_full(s: Seq<u64>)
    ensures
        prefix_value(s, s.len()) == wide_value(s),
    decreases s.len(),
{
    if s.len() > 0 {
        let t = s.drop_last();
        lemma_prefix_full(t);
        assert(forall|j: int| 0 <= j < t.len() ==> limb(s, j) == limb(t, j));
        lemma_prefix_agrees(s, t, t.len());
        assert(t.push(s.last()) =~= s);
        lemma_wide_snoc(t, s.last());
    }
}

/// Limbs past the end contribute nothing.
pub proof fn lemma_prefix_stable(s: Seq<u64>, i: nat)
    requires
        i >= s.len(),
    ensures
        prefix_value(s, i) == wide_value(s),
    decreases i,
{
    if i == s.len() {
        lemma_prefix_full(s);
    } else {
        lemma_prefix_stable(s, (i - 1) as nat);
    }
}

pub proof fn lemma_wide_split(s: Seq<u64>, i: nat)
    requires
        i <= s.len(),
    ensures
        wide_value(s) == wide_value(s.take(i as int)) + pow2(64 * i) * wide_value(s.skip(i as int)),
    decreases i,
{
    if i == 0 {
        assert(s.take(0) =~= Seq::<u64>::empty());
        assert(s.skip(0) =~= s);
        lemma2_to64();
        assert(pow2(0) == 1);
        assert(wide_value(Seq::<u64>::empty()) == 0);
        assert(wide_value(s.take(0)) == 0);
        assert(wide_value(s.skip(0)) == wide_value(s));
        assert(pow2(64 * 0) == 1);
        assert(pow2(64 * 0) * wide_value(s.skip(0)) == wide_value(s)) by (nonlinear_arith)
            requires pow2(64 * 0) == 1, wide_value(s.skip(0)) == wide_value(s),
        ;
        assert(wide_value(s) == wide_value(s.take(0)) + pow2(64 * 0) * wide_value(s.skip(0)));
    } else {
        lemma_wide_split(s.skip(1), (i - 1) as nat);
        assert(s.take(i as int).skip(1) =~= s.skip(1).take(i as int - 1));
        assert(s.skip(i as int) =~= s.skip(1).skip(i as int - 1));
        lemma_pow2_adds(64, 64 * ((i - 1) as nat));
        assert(64 * i == 64 + 64 * ((i - 1) as nat));
        let a = s[0] as nat;
        let low = wide_value(s.skip(1).take(i as int - 1));
        let high = wide_value(s.skip(1).skip(i as int - 1));
        let p = pow2(64 * ((i - 1) as nat));
        assert(wide_value(s.skip(1)) == low + p * high);
        assert(wide_value(s) == a + pow2(64) * wide_value(s.skip(1)));
        assert(s.take(i as int).len() == i);
        assert(s.take(i as int)[0] == s[0]);
        assert(wide_value(s.take(i as int)) == (s.take(i as int)[0] as nat) + pow2(64)
            * wide_value(s.take(i as int).skip(1)));
        assert(wide_value(s.take(i as int)) == a + pow2(64) * low);
        assert(wide_value(s.skip(i as int)) == high);
        assert(pow2(64) * (low + p * high) == pow2(64) * low + (pow2(64) * p) * high)
            by (nonlinear_arith);
        assert(pow2(64 * i) == pow2(64) * p);
        assert(wide_value(s) == wide_value(s.take(i as int)) + pow2(64 * i) * wide_value(
            s.skip(i as int),
        ));
    }
}

/// Two same-length limb sequences that agree above position `i` and
/// differ there are ordered by the limbs at `i`.
pub proof fn lemma_wide_cmp_at(a: Seq<u64>, b: Seq<u64>, i: int)
    requires
        a.len() == b.len(),
        0 <= i < a.len(),
        a[i] < b[i],
        forall|j: int| i < j < a.len() ==> a[j] == b[j],
    ensures
        wide_value(a) < wide_value(b),
{
    lemma_wide_split(a, i as nat);
    lemma_wide_split(b, i as nat);
    assert(a.skip(i).skip(1) =~= b.skip(i).skip(1));
    let p = pow2(64 * (i as nat));
    let rest = wide_value(a.skip(i).skip(1));
    assert(wide_value(a.skip(i)) == (a[i] as nat) + pow2(64) * rest);
    assert(wide_value(b.skip(i)) == (b[i] as nat) + pow2(64) * rest);
    lemma_wide_bound(a.take(i));
    assert(a.take(i).len() == i);
    lemma_pow2_pos(64 * (i as nat));
    let la = wide_value(a.take(i));
    let lb = wide_value(b.take(i));
    assert(la < p);
    assert(la + p * ((a[i] as nat) + pow2(64) * rest) < p * ((b[i] as nat) + pow2(64) * rest))
        by (nonlinear_arith)
        requires la < p, a[i] < b[i], p > 0, rest >= 0,
    ;
    assert(lb >= 0);
    assert(p * ((b[i] as nat) + pow2(64) * rest) <= lb + p * ((b[i] as nat) + pow2(64) * rest));
}

/// Same-length sequences with the same value are equal: a base-2^64
/// representation of fixed length is unique.
pub proof fn lemma_fixed_len_injective(a: Seq<u64>, b: Seq<u64>)
    requires
        a.len() == b.len(),
        wide_value(a) == wide_value(b),
    ensures
        a =~= b,
    decreases a.len(),
{
    if a.len() > 0 {
        lemma2_to64();
        let v = wide_value(a);
        lemma_fundamental_div_mod_converse(v as int, pow2(64) as int, wide_value(a.skip(1)) as int, a[0] as int);
        lemma_fundamental_div_mod_converse(v as int, pow2(64) as int, wide_value(b.skip(1)) as int, b[0] as int);
        assert(a[0] == b[0]);
        assert(wide_value(a.skip(1)) == wide_value(b.skip(1)));
        lemma_fixed_len_injective(a.skip(1), b.skip(1));
        assert(a =~= seq![a[0]].add(a.skip(1)));
        assert(b =~= seq![b[0]].add(b.skip(1)));
    }
}

pub proof fn lemma_gen_snoc(s: Seq<u32>, w: u32)
    ensures
        gen_value(s.push(w)) == gen_value(s) + (w as nat) * pow2(32 * s.len()),
    decreases s.len(),
{
    if s.len() == 0 {
        assert(s.push(w).skip(1) =~= Seq::<u32>::empty());
        assert(gen_value(Seq::<u32>::empty()) == 0);
        assert(s.push(w)[0] == w);
        assert(s.push(w).len() == 1);
        assert(gen_value(s.push(w)) == (s.push(w)[0] as nat) + pow2(32) * gen_value(
            s.push(w).skip(1),
        ));
        assert(gen_value(s.push(w)) == (w as nat) + pow2(32) * 0);
        lemma2_to64();
        assert(pow2(0) == 1);
    } else {
        lemma_gen_snoc(s.skip(1), w);
        assert(s.push(w).skip(1) =~= s.skip(1).push(w));
        lemma_pow2_adds(32, 32 * ((s.len() - 1) as nat));
        assert(32 * s.len() == 32 + 32 * ((s.len() - 1) as nat));
        let a = s[0] as nat;
        let v = gen_value(s.skip(1));
        let p = pow2(32 * ((s.len() - 1) as nat));
        assert(gen_value(s.push(w)) == a + pow2(32) * (v + (w as nat) * p));
        assert(pow2(32) * (v + (w as nat) * p) == pow2(32) * v + (w as nat) * (pow2(32) * p))
            by (nonlinear_arith);
    }
}

/// A generation-word sequence whose last word fits in `top` bits is below
/// `2^(32 * (len - 1) + top)`.
pub proof fn lemma_gen_bound_masked(s: Seq<u32>, top: nat)
    requires
        s.len() > 0,
        top <= 32,
        (s[s.len() - 1] as nat) < pow2(top),
    ensures
        gen_value(s) < pow2(32 * ((s.len() - 1) as nat) + top),
{
    let t = s.drop_last();
    assert(t.push(s.last()) =~= s);
    lemma_gen_snoc(t, s.last());
    lemma_gen_bound(t);
    lemma_pow2_adds(32 * t.len(), top);
    let p = pow2(32 * t.len());
    let q = pow2(top);
    assert(gen_value(t) < p);
    assert(gen_value(t) + (s.last() as nat) * p < p * q) by (nonlinear_arith)
        requires gen_value(t) < p, (s.last() as nat) < q, p > 0, q > 0,
    ;
    lemma_pow2_pos(32 * t.len());
    lemma_pow2_pos(top);
}

pub proof fn lemma_gen_bound(s: Seq<u32>)
    ensures
        gen_value(s) < pow2(32 * s.len()),
    decreases s.len(),
{
    if s.len() == 0 {
        lemma2_to64();
        assert(pow2(0) == 1);
    } else {
        lemma_gen_bound(s.skip(1));
        lemma_pow2_adds(32, 32 * ((s.len() - 1) as nat));
        lemma2_to64();
        let v = gen_value(s.skip(1));
        let p = pow2(32 * ((s.len() - 1) as nat));
        assert((s[0] as nat) < pow2(32));
        assert(pow2(32) * (v + 1) <= pow2(32) * p) by (nonlinear_arith)
            requires v + 1 <= p,
        ;
        assert((s[0] as nat) + pow2(32) * v < pow2(32) * (v + 1)) by (nonlinear_arith)
            requires (s[0] as nat) < pow2(32),
        ;
    }
}

pub proof fn lemma_gen_zero(s: Seq<u32>)
    requires
        gen_all_zero(s),
    ensures
        gen_value(s) == 0,
    decreases s.len(),
{
    if s.len() > 0 {
        assert(forall|i: int| 0 <= i < s.skip(1).len() ==> s.skip(1)[i] == s[i + 1]);
        assert(gen_all_zero(s.skip(1)));
        lemma_gen_zero(s.skip(1));
        assert(s[0] == 0);
        assert(gen_value(s) == (s[0] as nat) + pow2(32) * 0);
    }
}

/// How one native word is assembled from two adjacent generation words.
pub open spec fn packed_word(g: Seq<u32>, i: int) -> nat {
    (g[2 * i] as nat) + 0x1_0000_0000 * (if 2 * i + 1 < g.len() {
        g[2 * i + 1] as nat
    } else {
        0
    })
}

/// `p` is `g` packed two generation words to a native word.
pub open spec fn is_packing(g: Seq<u32>, p: Seq<u64>) -> bool {
    &&& p.len() == (g.len() + 1) / 2
    &&& forall|i: int| 0 <= i < p.len() ==> p[i] as nat == packed_word(g, i)
}

/// Packing generation-width words pairwise into native-width words keeps
/// the numeric value: the native sequence read in base 2^64 equals the
/// generation sequence read in base 2^32.  This is the word-width
/// reconciliation at the heart of the magnitude constructor.
pub proof fn lemma_pack_preserves_value(g: Seq<u32>, p: Seq<u64>)
    requires
        is_packing(g, p),
    ensures
        wide_value(p) == gen_value(g),
    decreases g.len(),
{
    lemma2_to64();
    if g.len() == 0 {
        assert(p.len() == 0);
    } else if g.len() == 1 {
        assert(p.len() == 1);
        assert(p[0] as nat == g[0] as nat);
        assert(p.skip(1) =~= Seq::<u64>::empty());
        assert(g.skip(1) =~= Seq::<u32>::empty());
        assert(wide_value(Seq::<u64>::empty()) == 0);
        assert(gen_value(Seq::<u32>::empty()) == 0);
        assert(wide_value(p) == (p[0] as nat) + pow2(64) * 0);
        assert(gen_value(g) == (g[0] as nat) + pow2(32) * 0);
    } else {
        let g2 = g.skip(2);
        let p1 = p.skip(1);
        assert(p1.len() == (g2.len() + 1) / 2);
        assert(forall|i: int| 0 <= i < p1.len() ==> p1[i] as nat == packed_word(g2, i)) by {
            assert(forall|i: int| 0 <= i < p1.len() ==> p1[i] as nat == #[trigger] packed_word(
                g,
                i + 1,
            ));
        }
        lemma_pack_preserves_value(g2, p1);
        // value relations: gen_value(g) = g0 + 2^32 g1 + 2^64 gen_value(g2)
        assert(g.skip(1).skip(1) =~= g2);
        let g0 = g[0] as nat;
        let g1 = g[1] as nat;
        assert(g.skip(1)[0] == g[1]);
        assert(gen_value(g.skip(1)) == g1 + pow2(32) * gen_value(g2));
        assert(gen_value(g) == g0 + pow2(32) * (g1 + pow2(32) * gen_value(g2)));
        assert(pow2(32) * (g1 + pow2(32) * gen_value(g2)) == pow2(32) * g1 + (pow2(32) * pow2(32))
            * gen_value(g2)) by (nonlinear_arith);
        lemma_pow2_adds(32, 32);
        assert(p[0] as nat == packed_word(g, 0));
        assert(2 * 0 + 1 < g.len());
        assert(p[0] as nat == g0 + pow2(32) * g1) by {
            assert(packed_word(g, 0) == (g[0] as nat) + 0x1_0000_0000 * (g[1] as nat));
        }
        assert(wide_value(p) == (p[0] as nat) + pow2(64) * wide_value(p1));
    }
}

} // verus!
