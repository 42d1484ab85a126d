//! The base-field abstraction: arithmetic of integers modulo a prime `p`.
//!
//! Field elements are `u64` values reduced modulo `p`; the spec functions
//! below are their mathematical model. Every point formula in this crate is
//! specified in terms of `fadd`, `fsub`, `fmul` and `fneg`.

use vstd::prelude::*;
use vstd::arithmetic::div_mod::{
    lemma_add_mod_noop, lemma_add_mod_noop_right, lemma_mod_add_multiples_vanish,
    lemma_mod_multiples_basic, lemma_mod_multiples_vanish,
    lemma_mod_sub_multiples_vanish, lemma_mul_mod_noop_general, lemma_mul_mod_noop_left,
    lemma_mul_mod_noop_right, lemma_small_mod, lemma_sub_mod_noop, lemma_sub_mod_noop_right,
};
use vstd::arithmetic::mul::{lemma_mul_is_associative, lemma_mul_is_commutative};

verus! {

/// Sum of two field elements.
pub open spec fn fadd(a: int, b: int, p: int) -> int {
    (a + b) % p
}

/// Difference of two field elements (for reduced operands `a - b + p` is
/// nonnegative, so the result is the reduced difference).
pub open spec fn fsub(a: int, b: int, p: int) -> int {
    (a - b + p) % p
}

/// Product of two field elements.
pub open spec fn fmul(a: int, b: int, p: int) -> int {
    (a * b) % p
}

/// Additive inverse of a reduced field element.
pub open spec fn fneg(a: int, p: int) -> int {
    (p - a) % p
}

/// Some reduced element is a multiplicative inverse of `a` modulo `p`.
pub open spec fn has_inverse(a: int, p: int) -> bool {
    exists|b: int| 0 <= b < p && fmul(a, b, p) == 1
}

/// The multiplicative inverse of `a` modulo `p`; meaningful only when
/// `has_inverse(a, p)` holds (it is then unique, `lemma_inverse_unique`).
pub open spec fn finv(a: int, p: int) -> int {
    choose|b: int| 0 <= b < p && fmul(a, b, p) == 1
}

/// What the group formulas need of the modulus: an odd prime, stated
/// directly as the field property that every nonzero element is invertible.
pub open spec fn prime_field(p: int) -> bool {
    &&& 2 < p
    &&& p % 2 == 1
    &&& forall|a: int| 0 < a < p ==> #[trigger] has_inverse(a, p)
}

/// Reduced sum, without overflow on any `u64` inputs.
pub fn add_mod(a: u64, b: u64, p: u64) -> (r: u64)
    requires
        0 < p,
    ensures
        r == fadd(a as int, b as int, p as int),
        r < p,
{
    (((a as u128) + (b as u128)) % (p as u128)) as u64
}

/// Reduced difference of two reduced elements.
pub fn sub_mod(a: u64, b: u64, p: u64) -> (r: u64)
    requires
        a < p,
        b < p,
    ensures
        r == fsub(a as int, b as int, p as int),
        r < p,
{
    (((a as u128) + (p as u128) - (b as u128)) % (p as u128)) as u64
}

/// Reduced product, via a 128-bit intermediate.
pub fn mul_mod(a: u64, b: u64, p: u64) -> (r: u64)
    requires
        0 < p,
    ensures
        r == fmul(a as int, b as int, p as int),
        r < p,
{
    proof {
        assert((a as int) * (b as int) <= 0xFFFF_FFFF_FFFF_FFFF * 0xFFFF_FFFF_FFFF_FFFF)
            by (nonlinear_arith)
            requires
                a as int <= 0xFFFF_FFFF_FFFF_FFFF,
                b as int <= 0xFFFF_FFFF_FFFF_FFFF,
                0 <= a as int,
                0 <= b as int,
        ;
    }
    (((a as u128) * (b as u128)) % (p as u128)) as u64
}

/// Additive inverse of a reduced element.
pub fn neg_mod(a: u64, p: u64) -> (r: u64)
    requires
        a < p,
    ensures
        r == fneg(a as int, p as int),
        r < p,
{
    (((p as u128) - (a as u128)) % (p as u128)) as u64
}

/// Multiplication in the field is commutative.
pub proof fn lemma_fmul_comm(a: int, b: int, p: int)
    ensures
        fmul(a, b, p) == fmul(b, a, p),
{
    lemma_mul_is_commutative(a, b);
}

/// Either association of a triple product reduces to the plain integer
/// product `a * b * c` modulo `p`.
pub proof fn lemma_fmul3(a: int, b: int, c: int, p: int)
    requires
        0 < p,
    ensures
        fmul(fmul(a, b, p), c, p) == (a * b * c) % p,
        fmul(a, fmul(b, c, p), p) == (a * b * c) % p,
{
    lemma_mul_mod_noop_left(a * b, c, p);
    lemma_mul_is_associative(a, b, c);
    lemma_mul_mod_noop_right(a, b * c, p);
}

/// The field's one is a multiplicative unit.
pub proof fn lemma_fmul_one(a: int, p: int)
    requires
        0 <= a < p,
    ensures
        fmul(1, a, p) == a,
        fmul(a, 1, p) == a,
{
    lemma_small_mod(a as nat, p as nat);
    lemma_mul_is_commutative(a, 1);
}

/// Zero annihilates products.
pub proof fn lemma_fmul_zero(a: int, p: int)
    requires
        0 < p,
    ensures
        fmul(a, 0, p) == 0,
        fmul(0, a, p) == 0,
{
    assert(a * 0 == 0) by (nonlinear_arith);
    assert(0 * a == 0) by (nonlinear_arith);
    lemma_small_mod(0, p as nat);
}

/// A reduced element has at most one reduced multiplicative inverse.
pub proof fn lemma_inverse_unique(a: int, x: int, y: int, p: int)
    requires
        0 < p,
        0 <= x < p,
        0 <= y < p,
        fmul(a, x, p) == 1,
        fmul(a, y, p) == 1,
    ensures
        x == y,
{
    lemma_fmul3(x, a, y, p);
    lemma_fmul_comm(x, a, p);
    lemma_fmul_one(y, p);
    // fmul(fmul(x, a, p), y, p) == fmul(1, y, p) == y
    lemma_fmul_comm(a, y, p);
    lemma_fmul3(x, y, a, p);
    lemma_fmul3(x, a, y, p);
    lemma_mul_is_associative(x, a, y);
    lemma_mul_is_commutative(a, y);
    lemma_mul_is_associative(x, y, a);
    // fmul(x, fmul(a, y, p), p) == fmul(x, fmul(y, a, p), p) == (x*y*a) % p
    // == (x*a*y) % p, and fmul(x, 1, p) == x
    lemma_fmul_one(x, p);
    assert(x * (a * y) == x * a * y) by (nonlinear_arith);
    lemma_mul_mod_noop_right(x, a * y, p);
    // so x == (x*a*y) % p == y
}

/// Multiplication by a nonzero element can be cancelled.
pub proof fn lemma_cancel(a: int, b: int, m: int, p: int)
    requires
        prime_field(p),
        0 <= a < p,
        0 <= b < p,
        0 < m < p,
        fmul(a, m, p) == fmul(b, m, p),
    ensures
        a == b,
{
    lemma_finv_works(m, p);
    let w = finv(m, p);
    lemma_fmul3(a, m, w, p);
    lemma_fmul3(b, m, w, p);
    lemma_fmul_one(a, p);
    lemma_fmul_one(b, p);
    // a == a * (m * w) == (a * m) * w == (b * m) * w == b * (m * w) == b
}

/// In a prime field a product of nonzero elements is nonzero.
pub proof fn lemma_no_zero_divisors(a: int, b: int, p: int)
    requires
        prime_field(p),
        0 < a < p,
        0 < b < p,
    ensures
        fmul(a, b, p) != 0,
{
    assert(has_inverse(a, p));
    let ia = choose|t: int| 0 <= t < p && fmul(a, t, p) == 1;
    lemma_fmul_comm(a, ia, p);
    lemma_fmul3(ia, a, b, p);
    // fmul(fmul(ia, a, p), b, p) == (ia*a*b) % p == fmul(ia, fmul(a, b, p), p)
    lemma_fmul_one(b, p);
    // so fmul(ia, fmul(a, b, p), p) == b != 0
    if fmul(a, b, p) == 0 {
        lemma_fmul_zero(ia, p);
        assert(false);
    }
}

/// Multiplicative inverse of a nonzero reduced element, by exhaustive
/// search; the field property guarantees the search succeeds.
pub fn inv_mod(a: u64, p: u64) -> (r: u64)
    requires
        prime_field(p as int),
        0 < a < p,
    ensures
        r < p,
        fmul(a as int, r as int, p as int) == 1,
        r == finv(a as int, p as int),
{
    proof {
        assert(has_inverse(a as int, p as int));
    }
    let ghost w: int = choose|t: int| 0 <= t < p && fmul(a as int, t, p as int) == 1;
    let mut b: u64 = 0;
    loop
        invariant
            prime_field(p as int),
            0 < a < p,
            0 <= b <= w < p,
            fmul(a as int, w as int, p as int) == 1,
            forall|j: int| 0 <= j < b ==> fmul(a as int, j, p as int) != 1,
        decreases w - b,
    {
        if mul_mod(a, b, p) == 1 {
            proof {
                lemma_inverse_unique(a as int, b as int, finv(a as int, p as int), p as int);
            }
            return b;
        }
        proof {
            assert(b < w);
        }
        b = b + 1;
    }
}

/// The chosen inverse of a nonzero reduced element really inverts it.
pub proof fn lemma_finv_works(a: int, p: int)
    requires
        prime_field(p),
        0 < a < p,
    ensures
        0 <= finv(a, p) < p,
        fmul(a, finv(a, p), p) == 1,
{
    assert(has_inverse(a, p));
    assert(exists|b: int| 0 <= b < p && fmul(a, b, p) == 1);
}

/// An operand of a field operation matters only through its residue.
pub proof fn lemma_fmul_mods(a: int, b: int, p: int)
    requires
        0 < p,
    ensures
        fmul(a % p, b % p, p) == fmul(a, b, p),
        fmul(a % p, b, p) == fmul(a, b, p),
        fmul(a, b % p, p) == fmul(a, b, p),
{
    lemma_mul_mod_noop_general(a, b, p);
}

/// An operand of a field sum matters only through its residue.
pub proof fn lemma_fadd_mods(a: int, b: int, p: int)
    requires
        0 < p,
    ensures
        fadd(a % p, b % p, p) == fadd(a, b, p),
        fadd(a % p, b, p) == fadd(a, b, p),
        fadd(a, b % p, p) == fadd(a, b, p),
{
    lemma_add_mod_noop(a, b, p);
    lemma_add_mod_noop_right(a, b, p);
    lemma_add_mod_noop_right(b, a, p);
}

/// `fsub` is the Euclidean residue of the plain difference.
pub proof fn lemma_fsub_is_mod(a: int, b: int, p: int)
    requires
        0 < p,
    ensures
        fsub(a, b, p) == (a - b) % p,
{
    lemma_mod_add_multiples_vanish(a - b, p);
}

/// An operand of a field difference matters only through its residue.
pub proof fn lemma_fsub_mods(a: int, b: int, p: int)
    requires
        0 < p,
    ensures
        fsub(a % p, b % p, p) == (a - b) % p,
        fsub(a % p, b, p) == (a - b) % p,
        fsub(a, b % p, p) == (a - b) % p,
{
    lemma_fsub_is_mod(a % p, b % p, p);
    lemma_fsub_is_mod(a % p, b, p);
    lemma_fsub_is_mod(a, b % p, p);
    lemma_sub_mod_noop(a, b, p);
    lemma_sub_mod_noop_right(a % p, b, p);
    lemma_sub_mod_noop_right(a, b, p);
}

/// Two integers that differ by a multiple of the modulus have one residue.
pub proof fn lemma_mod_eq_multiple(x: int, y: int, k: int, p: int)
    requires
        0 < p,
        x == y + p * k,
    ensures
        x % p == y % p,
{
    lemma_mod_multiples_vanish(k, y, p);
}

/// In a field of odd modulus, doubling vanishes only on zero.
pub proof fn lemma_fdbl_zero_iff(a: int, p: int)
    requires
        0 < p,
        p % 2 == 1,
        0 <= a < p,
    ensures
        fadd(a, a, p) == 0 <==> a == 0,
{
    if a == 0 {
        lemma_small_mod(0, p as nat);
    } else if a + a < p {
        lemma_small_mod((a + a) as nat, p as nat);
    } else {
        lemma_mod_sub_multiples_vanish(a + a, p);
        lemma_small_mod((a + a - p) as nat, p as nat);
        if fadd(a, a, p) == 0 {
            lemma_mod_multiples_basic(a, 2);
            assert(false);
        }
    }
}

/// For distinct reduced elements the two differences are complementary:
/// they are both nonzero and sum to the modulus.
pub proof fn lemma_fsub_antisym(a: int, b: int, p: int)
    requires
        0 < p,
        0 <= a < p,
        0 <= b < p,
        a != b,
    ensures
        0 < fsub(a, b, p) < p,
        fsub(a, b, p) + fsub(b, a, p) == p,
{
    lemma_fsub_is_mod(a, b, p);
    lemma_fsub_is_mod(b, a, p);
    if a > b {
        lemma_small_mod((a - b) as nat, p as nat);
        lemma_mod_add_multiples_vanish(b - a, p);
        lemma_small_mod((b - a + p) as nat, p as nat);
    } else {
        lemma_small_mod((b - a) as nat, p as nat);
        lemma_mod_add_multiples_vanish(a - b, p);
        lemma_small_mod((a - b + p) as nat, p as nat);
    }
}

/// Product modulo `p` of the nonzero entries of a sequence (one for the
/// empty sequence): the running product of the shared batch inversion.
pub open spec fn prod_nz(s: Seq<u64>, p: int) -> int
    decreases s.len(),
{
    if s.len() == 0 {
        1
    } else if s.last() == 0 {
        prod_nz(s.drop_last(), p)
    } else {
        fmul(prod_nz(s.drop_last(), p), s.last() as int, p)
    }
}

/// The running product of the nonzero entries is itself nonzero and reduced.
pub proof fn lemma_prod_nz_bounds(s: Seq<u64>, p: int)
    requires
        prime_field(p),
        forall|i: int| 0 <= i < s.len() ==> s[i] < p,
    ensures
        0 < prod_nz(s, p) < p,
    decreases s.len(),
{
    if s.len() > 0 {
        lemma_prod_nz_bounds(s.drop_last(), p);
        if s.last() != 0 {
            lemma_no_zero_divisors(prod_nz(s.drop_last(), p), s.last() as int, p);
        }
    }
}

/// Inverts every nonzero entry of a sequence of reduced field elements using
/// one shared field inversion plus a linear number of multiplications
/// (simultaneous inversion): a running product over the nonzero entries is
/// inverted once, and each individual inverse is recovered by unrolling the
/// product backwards. Zero entries are skipped, so they cannot corrupt the
/// inverses of the others, and come back as zero.
pub fn batch_invert(zs: &Vec<u64>, p: u64) -> (r: Vec<u64>)
    requires
        prime_field(p as int),
        forall|i: int| 0 <= i < zs@.len() ==> zs@[i] < p,
    ensures
        r@.len() == zs@.len(),
        forall|i: int| 0 <= i < zs@.len() && zs@[i] == 0 ==> r@[i] == 0,
        forall|i: int| 0 <= i < zs@.len() && zs@[i] != 0 ==> r@[i] < p
            && fmul(zs@[i] as int, r@[i] as int, p as int) == 1
            && r@[i] == finv(zs@[i] as int, p as int),
{
    let n: usize = zs.len();
    let mut prefix: Vec<u64> = Vec::new();
    let mut acc: u64 = 1;
    let mut idx: usize = 0;
    while idx < n
        invariant
            n == zs@.len(),
            prime_field(p as int),
            forall|i: int| 0 <= i < zs@.len() ==> zs@[i] < p,
            0 <= idx <= n,
            prefix@.len() == idx,
            acc == prod_nz(zs@.take(idx as int), p as int),
            0 < acc < p,
            forall|i: int| 0 <= i < idx ==> #[trigger] prefix@[i] == prod_nz(zs@.take(i), p as int),
        decreases n - idx,
    {
        prefix.push(acc);
        let zi: u64 = zs[idx];
        proof {
            assert(zs@.take(idx as int + 1).drop_last() =~= zs@.take(idx as int));
            assert(zs@.take(idx as int + 1).last() == zs@[idx as int]);
        }
        if zi != 0 {
            proof {
                lemma_no_zero_divisors(acc as int, zi as int, p as int);
            }
            acc = mul_mod(acc, zi, p);
        }
        idx = idx + 1;
    }
    proof {
        assert(zs@.take(n as int) =~= zs@);
    }
    let mut tinv: u64 = inv_mod(acc, p);
    let mut out: Vec<u64> = Vec::new();
    let mut k: usize = 0;
    while k < n
        invariant
            0 <= k <= n,
            out@.len() == k,
            forall|t: int| 0 <= t < k ==> out@[t] == 0,
        decreases n - k,
    {
        out.push(0);
        k = k + 1;
    }
    let mut i: usize = n;
    while i > 0
        invariant
            n == zs@.len(),
            out@.len() == n,
            prefix@.len() == n,
            prime_field(p as int),
            forall|t: int| 0 <= t < zs@.len() ==> zs@[t] < p,
            forall|t: int| 0 <= t < n ==> #[trigger] prefix@[t] == prod_nz(zs@.take(t), p as int),
            0 <= i <= n,
            tinv < p,
            fmul(prod_nz(zs@.take(i as int), p as int), tinv as int, p as int) == 1,
            forall|t: int| 0 <= t < i ==> out@[t] == 0,
            forall|t: int| i <= t < n && zs@[t] == 0 ==> out@[t] == 0,
            forall|t: int| i <= t < n && zs@[t] != 0 ==> out@[t] < p
                && fmul(zs@[t] as int, out@[t] as int, p as int) == 1
                && out@[t] == finv(zs@[t] as int, p as int),
        decreases i,
    {
        i = i - 1;
        let zi: u64 = zs[i];
        proof {
            assert(zs@.take(i as int + 1).drop_last() =~= zs@.take(i as int));
            assert(zs@.take(i as int + 1).last() == zs@[i as int]);
        }
        if zi != 0 {
            let pre_i: u64 = prefix[i];
            let oi: u64 = mul_mod(tinv, pre_i, p);
            let tinv2: u64 = mul_mod(tinv, zi, p);
            proof {
                let pp = p as int;
                let pre = prod_nz(zs@.take(i as int), pp);
                lemma_prod_nz_bounds(zs@.take(i as int), pp);
                // prod over the first i+1 entries is fmul(pre, zi, pp), and
                // tinv inverts it; rearrange the triple products.
                lemma_fmul3(zi as int, tinv as int, pre, pp);
                lemma_fmul3(pre, zi as int, tinv as int, pp);
                assert(zi as int * (tinv as int) * pre == pre * (zi as int) * (tinv as int))
                    by (nonlinear_arith);
                assert(fmul(zi as int, oi as int, pp) == 1);
                lemma_finv_works(zi as int, pp);
                lemma_inverse_unique(zi as int, oi as int, finv(zi as int, pp), pp);
                // the updated running inverse inverts the product over the
                // first i entries.
                lemma_fmul3(pre, tinv as int, zi as int, pp);
                assert(pre * (tinv as int) * (zi as int) == pre * (zi as int) * (tinv as int))
                    by (nonlinear_arith);
                assert(fmul(pre, tinv2 as int, pp) == 1);
            }
            out.set(i, oi);
            tinv = tinv2;
        }
    }
    out
}

} // verus!
