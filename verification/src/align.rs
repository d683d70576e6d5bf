//! Alignment arithmetic shared by the allocator and the address-space
//! constructor: rounding a cursor up to a power-of-two object alignment.

use vstd::prelude::*;

verus! {

use vstd::arithmetic::div_mod::{lemma_fundamental_div_mod, lemma_mod_multiples_basic};
use vstd::arithmetic::mul::{lemma_mul_inequality, lemma_mul_is_associative, lemma_mul_is_commutative};
use vstd::arithmetic::power2::{
    pow2, lemma_pow2_adds, lemma_pow2_pos, lemma_pow2_strictly_increases, lemma2_to64,
    lemma2_to64_rest,
};
use vstd::bits::{lemma_u64_pow2_no_overflow, lemma_u64_shl_is_mul};

/// `x` rounded up to the next multiple of `a`.
pub open spec fn align_up(x: int, a: int) -> int
    recommends
        a > 0,
{
    ((x + a - 1) / a) * a
}

/// Rounding up lands in `[x, x + a)` and on a multiple of `a`.
pub proof fn lemma_align_up_bounds(x: int, a: int)
    requires
        a > 0,
        x >= 0,
    ensures
        x <= align_up(x, a) < x + a,
        align_up(x, a) % a == 0,
{
    let q = (x + a - 1) / a;
    lemma_fundamental_div_mod(x + a - 1, a);
    lemma_mod_multiples_basic(q, a);
    lemma_mul_is_commutative(q, a);
}

/// `align_up(x, a)` is the least multiple of `a` that is at least `x`.
pub proof fn lemma_align_up_least(x: int, a: int, y: int)
    requires
        a > 0,
        x >= 0,
        y >= x,
        y % a == 0,
    ensures
        align_up(x, a) <= y,
{
    lemma_align_up_bounds(x, a);
    let q = (x + a - 1) / a;
    lemma_fundamental_div_mod(x + a - 1, a);
    lemma_fundamental_div_mod(y, a);
    let k = y / a;
    lemma_mul_is_commutative(q, a);
    lemma_mul_is_commutative(k, a);
    if y < align_up(x, a) {
        // Both are multiples of a, so y <= align_up(x, a) - a < x: contradiction.
        assert(a * k < a * q);
        if k >= q {
            lemma_mul_inequality(q, k, a);
            lemma_mul_is_commutative(q, a);
            lemma_mul_is_commutative(k, a);
            assert(false);
        }
        lemma_mul_inequality(k, q - 1, a);
        assert(k * a <= (q - 1) * a);
        assert((q - 1) * a == q * a - a) by (nonlinear_arith);
        assert(y <= align_up(x, a) - a);
        assert(align_up(x, a) < x + a);
        assert(y < x);
        assert(false);
    }
}

/// Rounding up to a small power of two never lands beyond rounding up to a
/// larger one: `align_up(x, 2^k) <= align_up(x, 2^m)` when `k <= m`.
pub proof fn lemma_align_up_pow2_mono(x: int, k: nat, m: nat)
    requires
        x >= 0,
        k <= m,
    ensures
        align_up(x, pow2(k) as int) <= align_up(x, pow2(m) as int),
{
    lemma_pow2_pos(k);
    lemma_pow2_pos(m);
    let pk = pow2(k) as int;
    let pm = pow2(m) as int;
    lemma_align_up_bounds(x, pm);
    let y = align_up(x, pm);
    let q = (x + pm - 1) / pm;
    // y == q * pm is a multiple of pk because pk divides pm.
    lemma_pow2_adds(k, (m - k) as nat);
    assert(pm == pk * pow2((m - k) as nat));
    let c = pow2((m - k) as nat) as int;
    assert(q * pm == (q * c) * pk) by (nonlinear_arith)
        requires
            pm == pk * c,
    ;
    lemma_mod_multiples_basic(q * c, pk);
    assert(y % pk == 0);
    lemma_align_up_least(x, pk, y);
}

/// Any admissible object or region size stays far below the word limit.
pub proof fn lemma_pow2_within_47(e: nat)
    requires
        e <= 47,
    ensures
        0 < pow2(e) <= 0x800000000000,
{
    lemma_pow2_pos(e);
    if e < 47 {
        lemma_pow2_strictly_increases(e, 47);
    }
    lemma2_to64();
    lemma2_to64_rest();
}

/// `2^e` as a machine word.
pub fn pow2_u64(e: u64) -> (r: u64)
    requires
        e <= 47,
    ensures
        r == pow2(e as nat),
        r >= 1,
{
    proof {
        lemma_u64_pow2_no_overflow(e as nat);
        lemma_u64_shl_is_mul(1u64, e);
        lemma_pow2_pos(e as nat);
    }
    1u64 << e
}

/// `x` rounded up to the next multiple of `a`, on machine words.
pub fn align_up_u64(x: u64, a: u64) -> (r: u64)
    requires
        a >= 1,
        x + a - 1 <= u64::MAX,
    ensures
        r == align_up(x as int, a as int),
        x <= r < x + a,
{
    let s: u64 = x + (a - 1);
    let q: u64 = s / a;
    proof {
        lemma_fundamental_div_mod(s as int, a as int);
        lemma_mul_is_commutative(q as int, a as int);
        assert(q as int * a as int <= s as int);
        lemma_align_up_bounds(x as int, a as int);
    }
    q * a
}

} // verus!
