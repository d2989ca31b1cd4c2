//! Integer arithmetic for the search: square roots, powers and weight sums.
use vstd::prelude::*;

use crate::search_tree::{MAX_TEMPERATURE, MAX_VISITS};

verus! {

/// `r` is the integer square root of `x`.
pub open spec fn is_isqrt(r: int, x: int) -> bool {
    0 <= r && r * r <= x && x < (r + 1) * (r + 1)
}

/// The integer square root of `x`.
pub open spec fn isqrt_spec(x: nat) -> nat {
    choose|r: nat| is_isqrt(r as int, x as int)
}

proof fn lemma_isqrt_unique(r1: int, r2: int, x: int)
    requires
        is_isqrt(r1, x),
        is_isqrt(r2, x),
    ensures
        r1 == r2,
{
    if r1 < r2 {
        assert((r1 + 1) * (r1 + 1) <= r2 * r2) by (nonlinear_arith)
            requires
                0 <= r1,
                r1 + 1 <= r2,
        ;
    }
    if r2 < r1 {
        assert((r2 + 1) * (r2 + 1) <= r1 * r1) by (nonlinear_arith)
            requires
                0 <= r2,
                r2 + 1 <= r1,
        ;
    }
}

/// The integer square root of `x`, by bisection.
pub fn isqrt(x: u64) -> (r: u64)
    ensures
        is_isqrt(r as int, x as int),
        r == isqrt_spec(x as nat),
        r < 4294967296,
{
    let mut lo: u64 = 0;
    let mut hi: u64 = 4294967296;
    assert(x < 4294967296 * 4294967296);
    while hi - lo > 1
        invariant
            lo < hi <= 4294967296,
            lo * lo <= x,
            x < hi * hi,
        decreases hi - lo,
    {
        let mid: u64 = lo + (hi - lo) / 2;
        assert(mid * mid < 4294967296 * 4294967296) by (nonlinear_arith)
            requires
                mid < 4294967296,
        ;
        let sq: u128 = (mid as u128) * (mid as u128);
        if sq <= x as u128 {
            lo = mid;
        } else {
            hi = mid;
        }
    }
    proof {
        assert(is_isqrt(lo as int, x as int));
        let s = isqrt_spec(x as nat);
        assert(is_isqrt(s as int, x as int));
        lemma_isqrt_unique(lo as int, s as int, x as int);
    }
    lo
}

/// `b` raised to the power `e`.
pub open spec fn power(b: nat, e: nat) -> nat
    decreases e,
{
    if e == 0 {
        1
    } else {
        b * power(b, (e - 1) as nat)
    }
}

pub proof fn lemma_power_positive(b: nat, e: nat)
    requires
        e > 0,
    ensures
        power(b, e) > 0 <==> b > 0,
    decreases e,
{
    let prev = power(b, (e - 1) as nat);
    assert(power(b, e) == b * prev);
    if e > 1 {
        lemma_power_positive(b, (e - 1) as nat);
    } else {
        assert(prev == 1);
    }
    if b > 0 {
        assert(b * prev > 0) by (nonlinear_arith)
            requires
                b > 0,
                prev > 0,
        ;
    } else {
        assert(b * prev == 0);
    }
}

/// The sum of a sequence of weights.
pub open spec fn weight_sum(s: Seq<u128>) -> nat
    decreases s.len(),
{
    if s.len() == 0 {
        0
    } else {
        weight_sum(s.drop_last()) + (s.last() as nat)
    }
}

pub proof fn lemma_weight_sum_zero(s: Seq<u128>)
    ensures
        weight_sum(s) == 0 <==> forall|j: int| 0 <= j < s.len() ==> s[j] == 0,
    decreases s.len(),
{
    if s.len() > 0 {
        lemma_weight_sum_zero(s.drop_last());
        if weight_sum(s) == 0 {
            assert forall|j: int| 0 <= j < s.len() implies s[j] == 0 by {
                if j < s.len() - 1 {
                    assert(s.drop_last()[j] == s[j]);
                }
            }
        } else {
            if forall|j: int| 0 <= j < s.len() ==> s[j] == 0 {
                assert forall|j: int| 0 <= j < s.drop_last().len() implies s.drop_last()[j] == 0 by {
                    assert(s.drop_last()[j] == s[j]);
                }
                assert(s.last() == s[s.len() - 1]);
            }
        }
    }
}

/// Relies on rand's `WeightedIndex::new` and its `sample`: construction fails exactly
/// when there is no weight or every weight is zero, and a sample is the index of a
/// positive weight.
#[verifier::external_body]
pub(crate) fn sample_weighted(weights: &Vec<u128>) -> (r: Option<usize>)
    requires
        weight_sum(weights@) <= u128::MAX,
    ensures
        r is Some <==> weight_sum(weights@) > 0,
        r is Some ==> r->0 < weights@.len() && weights@[r->0 as int] > 0,
{
    match rand::distributions::WeightedIndex::new(weights) {
        Ok(dist) => Some(rand::distributions::Distribution::sample(&dist, &mut rand::thread_rng())),
        Err(_) => None,
    }
}

/// `n` to the power `t`, for a visit count and a temperature.
pub(crate) fn visit_weight(n: u64, t: u32) -> (r: u128)
    requires
        n <= MAX_VISITS,
        t <= MAX_TEMPERATURE,
    ensures
        r == power(n as nat, t as nat),
        r <= 79228162514264337593543950336,
{
    let mut w: u128 = 1;
    let mut k: u32 = 0;
    while k < t
        invariant
            k <= t <= 3,
            n <= 4294967295,
            w == power(n as nat, k as nat),
            w <= power(4294967296, k as nat),
        decreases t - k,
    {
        assert(power(4294967296, 3) == 79228162514264337593543950336) by {
            reveal_with_fuel(power, 4);
        }
        assert(power(4294967296, 2) == 18446744073709551616) by {
            reveal_with_fuel(power, 3);
        }
        assert(power(4294967296, 1) == 4294967296) by {
            reveal_with_fuel(power, 2);
        }
        assert(power(4294967296, 0) == 1);
        let ghost bound = power(4294967296, k as nat);
        assert(w * n <= bound * 4294967296) by (nonlinear_arith)
            requires
                w <= bound,
                n <= 4294967295,
        ;
        assert(power(4294967296, (k + 1) as nat) == 4294967296 * bound);
        assert(power(n as nat, (k + 1) as nat) == (n as nat) * power(n as nat, k as nat));
        assert(w * n == n * w) by (nonlinear_arith);
        w = w * (n as u128);
        k = k + 1;
    }
    assert(power(4294967296, 3) == 79228162514264337593543950336) by {
        reveal_with_fuel(power, 4);
    }
    assert(power(4294967296, 2) == 18446744073709551616) by {
        reveal_with_fuel(power, 3);
    }
    assert(power(4294967296, 1) == 4294967296) by {
        reveal_with_fuel(power, 2);
    }
    w
}

} // verus!
