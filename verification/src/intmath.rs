//! Floor (Euclidean) integer division and remainder.
//!
//! The ring scan indexes hex cells by angular position, which may be
//! negative; cell lookups therefore need flooring division and modulo,
//! never the truncating operators of the machine.

use vstd::prelude::*;
use vstd::arithmetic::div_mod::{
    lemma_div_is_ordered_by_denominator, lemma_fundamental_div_mod,
    lemma_fundamental_div_mod_converse,
};

verus! {

/// Relates the machine's truncating `/` and `%` on a negative dividend to
/// the flooring quotient and remainder that contracts here are stated with.
proof fn lemma_trunc_to_floor(a: int, b: int)
    requires
        b >= 1,
        a < 0,
    ensures
        (-a) % b == 0 ==> a / b == -((-a) / b) && a % b == 0,
        (-a) % b != 0 ==> a / b == -((-a) / b) - 1 && a % b == b - (-a) % b,
        (-a) % b != 0 ==> b >= 2 && (-a) / b <= (-a) / 2,
{
    let n = -a;
    let q = n / b;
    let m = n % b;
    lemma_fundamental_div_mod(n, b);
    if m == 0 {
        assert(a == (-q) * b + 0) by (nonlinear_arith)
            requires n == b * q + m && m == 0 && a == -n
        ;
        lemma_fundamental_div_mod_converse(a, b, -q, 0);
    } else {
        assert(a == b * (-q - 1) + (b - m)) by (nonlinear_arith)
            requires n == b * q + m && a == -n
        ;
        lemma_fundamental_div_mod_converse(a, b, -q - 1, b - m);
        lemma_div_is_ordered_by_denominator(n, 2, b);
    }
}

/// Flooring division of `a` by a positive `b`: rounds towards negative
/// infinity, so the result `q` satisfies `q * b <= a < (q + 1) * b`.
pub fn floor_div_i64(a: i64, b: i64) -> (q: i64)
    requires
        b >= 1,
    ensures
        q == a as int / b as int,
{
    let t: i64 = a / b;
    if a % b != 0 && a < 0 {
        proof {
            lemma_trunc_to_floor(a as int, b as int);
        }
        t - 1
    } else {
        proof {
            if a < 0 {
                lemma_trunc_to_floor(a as int, b as int);
            }
        }
        t
    }
}

/// Flooring division on `i128`, for wide intermediate products.
pub fn floor_div_i128(a: i128, b: i128) -> (q: i128)
    requires
        b >= 1,
    ensures
        q == a as int / b as int,
{
    let t: i128 = a / b;
    if a % b != 0 && a < 0 {
        proof {
            lemma_trunc_to_floor(a as int, b as int);
        }
        t - 1
    } else {
        proof {
            if a < 0 {
                lemma_trunc_to_floor(a as int, b as int);
            }
        }
        t
    }
}

/// Flooring remainder of `a` modulo a positive `b`: always in `[0, b)`.
pub fn floor_mod_i64(a: i64, b: i64) -> (r: i64)
    requires
        b >= 1,
    ensures
        r == a as int % b as int,
        0 <= r < b,
{
    let t: i64 = a % b;
    proof {
        if a < 0 {
            lemma_trunc_to_floor(a as int, b as int);
        }
    }
    if t < 0 {
        t + b
    } else {
        t
    }
}

} // verus!
