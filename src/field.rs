//! Arithmetic in the prime field of order `MODULUS` on canonical `u64` values.
use vstd::prelude::*;
use vstd::arithmetic::div_mod::{lemma_add_mod_noop, lemma_mul_mod_noop, lemma_mul_mod_noop_left,
    lemma_mul_mod_noop_right};
use winter_math::fields::f64::BaseElement;
use winter_math::{FieldElement, StarkField};

verus! {

/// The field modulus 2^64 - 2^32 + 1.
pub const MODULUS: u64 = 0xFFFF_FFFF_0000_0001;

/// The modulus as a mathematical integer.
pub open spec fn p() -> int {
    MODULUS as int
}

/// A value that is a canonical representative of a field element.
pub open spec fn is_felt(x: int) -> bool {
    0 <= x < p()
}

/// `x` has a multiplicative inverse among the canonical values.
pub open spec fn is_unit(x: int) -> bool {
    exists|y: int| is_felt(y) && #[trigger] ((x * y) % p()) == 1
}

/// The multiplicative inverse of `x`, for a unit `x`.
pub open spec fn inv_of(x: int) -> int {
    choose|y: int| is_felt(y) && #[trigger] ((x * y) % p()) == 1
}

/// Inverses are unique: two canonical inverses of one value are equal.
pub proof fn lemma_inverse_unique(a: int, r: int, s: int)
    requires
        is_felt(r),
        is_felt(s),
        (a * r) % p() == 1,
        (a * s) % p() == 1,
    ensures
        r == s,
{
    let ghost m = p();
    lemma_mul_mod_noop_right(r, a * s, m);
    assert(r * (a * s) == (r * a) * s) by (nonlinear_arith);
    lemma_mul_mod_noop_left(r * a, s, m);
    assert(r * a == a * r) by (nonlinear_arith);
    assert(r % m == r) by {
        vstd::arithmetic::div_mod::lemma_small_mod(r as nat, m as nat);
    }
    assert(s % m == s) by {
        vstd::arithmetic::div_mod::lemma_small_mod(s as nat, m as nat);
    }
}

/// Zero has no inverse.
pub proof fn lemma_zero_not_unit()
    ensures
        !is_unit(0),
{
    assert forall|y: int| is_felt(y) implies #[trigger] ((0 * y) % p()) != 1 by {
        assert(0 * y == 0);
    }
}

/// Sum of two field elements.
pub fn felt_add(a: u64, b: u64) -> (r: u64)
    requires
        is_felt(a as int),
        is_felt(b as int),
    ensures
        r as int == (a as int + b as int) % p(),
{
    ((a as u128 + b as u128) % (MODULUS as u128)) as u64
}

/// Product of two field elements.
pub fn felt_mul(a: u64, b: u64) -> (r: u64)
    requires
        is_felt(a as int),
        is_felt(b as int),
    ensures
        r as int == (a as int * b as int) % p(),
{
    assert((a as u128) * (b as u128) <= 0xffff_ffff_ffff_ffffu128 * 0xffff_ffff_ffff_ffffu128)
        by (nonlinear_arith);
    ((a as u128 * b as u128) % (MODULUS as u128)) as u64
}

/// Relies on winter_math's `BaseElement::inv`, which returns the multiplicative inverse in
/// the field of order `MODULUS` (zero for zero); `BaseElement::new` and `as_int` convert
/// from and to the canonical value.
#[verifier::external_body]
fn field_inv(a: u64) -> (r: u64)
    requires
        is_felt(a as int),
    ensures
        is_felt(r as int),
        a != 0 ==> (a as int * r as int) % p() == 1,
{
    BaseElement::new(a).inv().as_int()
}

/// The inverse of `a`, or `None` when `a` has none.
pub fn felt_try_inv(a: u64) -> (r: Option<u64>)
    requires
        is_felt(a as int),
    ensures
        r is None <==> a == 0,
        r is None <==> !is_unit(a as int),
        r matches Some(y) ==> y as int == inv_of(a as int) && is_felt(y as int)
            && (a as int * y as int) % p() == 1,
{
    if a == 0 {
        proof {
            lemma_zero_not_unit();
        }
        None
    } else {
        let y = field_inv(a);
        proof {
            let w = inv_of(a as int);
            assert(is_felt(y as int) && ((a as int * y as int) % p()) == 1);
            assert(is_unit(a as int));
            lemma_inverse_unique(a as int, y as int, w);
        }
        Some(y)
    }
}

/// Reduction of an arbitrary `u64` into the field.
pub fn felt_reduce(a: u64) -> (r: u64)
    ensures
        r as int == (a as int) % p(),
{
    a % MODULUS
}

/// The combination `c0 + c1 * x + c2 * y` in the field, for any `u64` inputs.
pub open spec fn affine3(c0: int, c1: int, c2: int, x: int, y: int) -> int {
    (c0 + c1 * x + c2 * y) % p()
}

/// Evaluates `affine3` on `u64` inputs.
pub fn felt_affine3(c0: u64, c1: u64, c2: u64, x: u64, y: u64) -> (r: u64)
    ensures
        r as int == affine3(c0 as int, c1 as int, c2 as int, x as int, y as int),
{
    let ghost m = p();
    let t1 = felt_mul(felt_reduce(c1), felt_reduce(x));
    let t2 = felt_mul(felt_reduce(c2), felt_reduce(y));
    let s1 = felt_add(felt_reduce(c0), t1);
    let s2 = felt_add(s1, t2);
    proof {
        lemma_mul_mod_noop(c1 as int, x as int, m);
        lemma_mul_mod_noop(c2 as int, y as int, m);
        lemma_add_mod_noop(c0 as int, c1 as int * x as int, m);
        lemma_add_mod_noop(c0 as int + c1 as int * x as int, c2 as int * y as int, m);
        assert((s1 as int) % m == s1 as int) by {
            vstd::arithmetic::div_mod::lemma_small_mod(s1 as nat, m as nat);
        }
        assert((t2 as int) % m == t2 as int) by {
            vstd::arithmetic::div_mod::lemma_small_mod(t2 as nat, m as nat);
        }
    }
    s2
}

} // verus!
