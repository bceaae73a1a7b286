//! Factorials and binomial coefficients, exactly.
//!
//! The specification is the textbook one: `n!` is the product `1 * 2 * ... * n`
//! and `C(n, k)` is `n! / (k! * (n - k)!)`. The executable functions never
//! form a factorial to reach a binomial coefficient: they multiply and divide
//! incrementally, and the division is proved to leave no remainder.

use crate::bignat::BigNat;
use crate::error::TrialError;
use vstd::arithmetic::div_mod::lemma_fundamental_div_mod_converse;
use vstd::prelude::*;

verus! {

/// `n!`, with `0! == 1`.
pub open spec fn spec_factorial(n: nat) -> nat
    decreases n,
{
    if n == 0 {
        1
    } else {
        n * spec_factorial((n - 1) as nat)
    }
}

/// `C(n, k) = n! / (k! * (n - k)!)`, meaningful for `k <= n`.
pub open spec fn spec_binomial(n: nat, k: nat) -> nat
    recommends
        k <= n,
{
    spec_factorial(n) / (spec_factorial(k) * spec_factorial((n - k) as nat))
}

/// A factorial is never zero.
pub proof fn lemma_factorial_positive(n: nat)
    ensures
        spec_factorial(n) >= 1,
    decreases n,
{
    if n > 0 {
        lemma_factorial_positive((n - 1) as nat);
        assert(n * spec_factorial((n - 1) as nat) >= 1) by (nonlinear_arith)
            requires
                n >= 1,
                spec_factorial((n - 1) as nat) >= 1,
        ;
    }
}

/// A quotient is pinned down by an exact product.
proof fn lemma_exact_quotient(x: nat, d: nat, q: nat)
    requires
        d > 0,
        q * d == x,
    ensures
        x / d == q,
        x % d == 0,
{
    assert(q * d == d * q) by (nonlinear_arith);
    lemma_fundamental_div_mod_converse(x as int, d as int, q as int, 0);
}

/// The division in `spec_binomial` leaves no remainder, and the
/// coefficients obey Pascal's rule.
pub proof fn lemma_binomial_exact(n: nat, k: nat)
    requires
        k <= n,
    ensures
        spec_binomial(n, k) * (spec_factorial(k) * spec_factorial((n - k) as nat))
            == spec_factorial(n),
        spec_binomial(n, k) >= 1,
        0 < k < n ==> spec_binomial(n, k) == spec_binomial((n - 1) as nat, (k - 1) as nat)
            + spec_binomial((n - 1) as nat, k),
    decreases n,
{
    let big_f = spec_factorial(k);
    let big_g = spec_factorial((n - k) as nat);
    let d = big_f * big_g;
    lemma_factorial_positive(k);
    lemma_factorial_positive((n - k) as nat);
    lemma_factorial_positive(n);
    assert(d >= 1) by (nonlinear_arith)
        requires
            d == big_f * big_g,
            big_f >= 1,
            big_g >= 1,
    ;
    if k == 0 || k == n {
        assert(d == spec_factorial(n)) by (nonlinear_arith)
            requires
                d == big_f * big_g,
                (big_f == 1 && big_g == spec_factorial(n)) || (big_g == 1 && big_f
                    == spec_factorial(n)),
        ;
        assert(1 * d == d);
        lemma_exact_quotient(spec_factorial(n), d, 1);
    } else {
        let n1 = (n - 1) as nat;
        let k1 = (k - 1) as nat;
        lemma_binomial_exact(n1, k1);
        lemma_binomial_exact(n1, k);
        let a = spec_binomial(n1, k1);
        let b = spec_binomial(n1, k);
        let f = spec_factorial(k1);
        let g = spec_factorial((n - k - 1) as nat);
        let m = spec_factorial(n1);
        assert(big_f == k * f);
        assert(big_g == (n - k) * g);
        assert((n1 - k1) as nat == (n - k) as nat);
        assert((n1 - k) as nat == (n - k - 1) as nat);
        assert(a * (f * big_g) == m);
        assert(b * (big_f * g) == m);
        assert(a * (big_f * big_g) == k * (a * (f * big_g))) by (nonlinear_arith)
            requires
                big_f == k * f,
        ;
        assert(b * (big_f * big_g) == (n - k) * (b * (big_f * g))) by (nonlinear_arith)
            requires
                big_g == (n - k) * g,
        ;
        assert((a + b) * d == a * d + b * d) by (nonlinear_arith);
        assert(k * m + (n - k) * m == n * m) by (nonlinear_arith);
        assert((a + b) * d == spec_factorial(n));
        lemma_exact_quotient(spec_factorial(n), d, a + b);
    }
    assert(spec_binomial(n, k) >= 1) by (nonlinear_arith)
        requires
            spec_binomial(n, k) * d == spec_factorial(n),
            spec_factorial(n) >= 1,
            d >= 1,
    ;
}

/// `C(n, 0) == 1` and `C(n, n) == 1`.
pub proof fn lemma_binomial_edges(n: nat)
    ensures
        spec_binomial(n, 0) == 1,
        spec_binomial(n, n) == 1,
{
    let f = spec_factorial(n);
    lemma_factorial_positive(n);
    assert(1 * f == f && f * 1 == f);
    assert(1 * (1 * f) == f);
    assert(1 * (f * 1) == f);
    assert((n - 0) as nat == n);
    assert((n - n) as nat == 0);
    lemma_exact_quotient(f, 1 * f, 1);
    lemma_exact_quotient(f, f * 1, 1);
}

/// `C(n, k) == C(n, n - k)`.
pub proof fn lemma_binomial_symmetric(n: nat, k: nat)
    requires
        k <= n,
    ensures
        spec_binomial(n, k) == spec_binomial(n, (n - k) as nat),
{
    let f = spec_factorial(k);
    let g = spec_factorial((n - k) as nat);
    assert((n - (n - k)) as nat == k);
    assert(f * g == g * f) by (nonlinear_arith);
}

/// `k * C(n, k) == n * C(n - 1, k - 1)`: the step of the multiplicative
/// formula.
pub proof fn lemma_binomial_absorption(n: nat, k: nat)
    requires
        1 <= k <= n,
    ensures
        k * spec_binomial(n, k) == n * spec_binomial((n - 1) as nat, (k - 1) as nat),
{
    let n1 = (n - 1) as nat;
    let k1 = (k - 1) as nat;
    lemma_binomial_exact(n, k);
    lemma_binomial_exact(n1, k1);
    let c = spec_binomial(n, k);
    let c1 = spec_binomial(n1, k1);
    let f = spec_factorial(k1);
    let g = spec_factorial((n - k) as nat);
    let d = f * g;
    lemma_factorial_positive(k1);
    lemma_factorial_positive((n - k) as nat);
    assert((n1 - k1) as nat == (n - k) as nat);
    assert(spec_factorial(k) == k * f);
    assert(spec_factorial(n) == n * spec_factorial(n1));
    assert(c * ((k * f) * g) == n * (c1 * d));
    assert(c * ((k * f) * g) == (k * c) * d) by (nonlinear_arith)
        requires
            d == f * g,
    ;
    assert(n * (c1 * d) == (n * c1) * d) by (nonlinear_arith);
    assert(k * c == n * c1) by (nonlinear_arith)
        requires
            (k * c) * d == (n * c1) * d,
            d == f * g,
            f >= 1,
            g >= 1,
    ;
}

/// `(k + 1) * C(n, k + 1) == (n - k) * C(n, k)`: the step from one
/// coefficient of a row to the next.
pub proof fn lemma_binomial_next(n: nat, k: nat)
    requires
        k < n,
    ensures
        (k + 1) * spec_binomial(n, k + 1) == (n - k) * spec_binomial(n, k),
{
    lemma_binomial_exact(n, k);
    lemma_binomial_exact(n, k + 1);
    let here = spec_binomial(n, k);
    let next = spec_binomial(n, k + 1);
    let f = spec_factorial(k);
    let g = spec_factorial((n - k - 1) as nat);
    let d = f * g;
    lemma_factorial_positive(k);
    lemma_factorial_positive((n - k - 1) as nat);
    assert(spec_factorial(k + 1) == (k + 1) * f);
    assert(spec_factorial((n - k) as nat) == (n - k) * g);
    assert((n - (k + 1)) as nat == (n - k - 1) as nat);
    assert(next * (((k + 1) * f) * g) == here * (f * ((n - k) * g)));
    assert(next * (((k + 1) * f) * g) == ((k + 1) * next) * d) by (nonlinear_arith)
        requires
            d == f * g,
    ;
    assert(here * (f * ((n - k) * g)) == ((n - k) * here) * d) by (nonlinear_arith)
        requires
            d == f * g,
    ;
    assert((k + 1) * next == (n - k) * here) by (nonlinear_arith)
        requires
            ((k + 1) * next) * d == ((n - k) * here) * d,
            d == f * g,
            f >= 1,
            g >= 1,
    ;
}

/// `n!` as an exact natural number.
pub fn factorial(n: u64) -> (r: BigNat)
    ensures
        r@ == spec_factorial(n as nat),
{
    let mut acc: BigNat = BigNat::from_u64(1);
    let mut i: u64 = 0;
    while i < n
        invariant
            i <= n,
            acc@ == spec_factorial(i as nat),
        decreases n - i,
    {
        i += 1;
        proof {
            let prev = spec_factorial((i - 1) as nat);
            assert(prev * i == i * prev) by (nonlinear_arith);
        }
        acc = acc.mul_small(i);
    }
    acc
}

/// `C(n, k)` as an exact natural number, or `InvalidDomain` when `k > n`.
///
/// The coefficient is built up as `C(b, 0), C(b + 1, 1), ..., C(b + m, m)`
/// with `m` the smaller of `k` and `n - k` and `b = n - m`; each step
/// multiplies by the new upper index and divides by the new lower one.
pub fn binomial(n: u64, k: u64) -> (r: Result<BigNat, TrialError>)
    ensures
        k <= n ==> r.is_ok() && r.unwrap()@ == spec_binomial(n as nat, k as nat),
        k > n ==> r == Err::<BigNat, TrialError>(TrialError::InvalidDomain),
{
    if k > n {
        return Err(TrialError::InvalidDomain);
    }
    let m: u64 = if k <= n - k {
        k
    } else {
        n - k
    };
    let bottom: u64 = n - m;
    let mut acc: BigNat = BigNat::from_u64(1);
    let mut j: u64 = 0;
    proof {
        lemma_binomial_edges(bottom as nat);
    }
    while j < m
        invariant
            j <= m,
            m <= n,
            bottom == n - m,
            acc@ == spec_binomial((bottom + j) as nat, j as nat),
        decreases m - j,
    {
        j += 1;
        let scaled: BigNat = acc.mul_small(bottom + j);
        let (quotient, _rem) = scaled.div_rem_small(j);
        proof {
            let top = (bottom + j) as nat;
            lemma_binomial_absorption(top, j as nat);
            let c = spec_binomial(top, j as nat);
            assert(c * j == j * c) by (nonlinear_arith);
            assert(scaled@ == top * spec_binomial((top - 1) as nat, (j - 1) as nat))
                by (nonlinear_arith)
                requires
                    scaled@ == spec_binomial((top - 1) as nat, (j - 1) as nat) * top,
            ;
            lemma_exact_quotient(scaled@, j as nat, c);
        }
        acc = quotient;
    }
    proof {
        lemma_binomial_symmetric(n as nat, k as nat);
    }
    Ok(acc)
}

/// From `C(n, k)` to `C(n, k + 1)` in one multiplication and one exact
/// division.
pub fn binomial_next(current: &BigNat, n: u64, k: u64) -> (r: BigNat)
    requires
        k < n,
        current@ == spec_binomial(n as nat, k as nat),
    ensures
        r@ == spec_binomial(n as nat, (k + 1) as nat),
{
    let scaled: BigNat = current.mul_small(n - k);
    let (quotient, _rem) = scaled.div_rem_small(k + 1);
    proof {
        lemma_binomial_next(n as nat, k as nat);
        let next = spec_binomial(n as nat, (k + 1) as nat);
        assert(next * ((k + 1) as nat) == scaled@) by (nonlinear_arith)
            requires
                (k + 1) * next == (n - k) * spec_binomial(n as nat, k as nat),
                scaled@ == spec_binomial(n as nat, k as nat) * ((n - k) as nat),
        ;
        lemma_exact_quotient(scaled@, (k + 1) as nat, next);
    }
    quotient
}

/// From `C(n, k)` to `C(n, k - 1)` in one multiplication and one exact
/// division.
pub fn binomial_previous(current: &BigNat, n: u64, k: u64) -> (r: BigNat)
    requires
        1 <= k <= n,
        current@ == spec_binomial(n as nat, k as nat),
    ensures
        r@ == spec_binomial(n as nat, (k - 1) as nat),
{
    let scaled: BigNat = current.mul_small(k);
    let (quotient, _rem) = scaled.div_rem_small(n - k + 1);
    proof {
        lemma_binomial_next(n as nat, (k - 1) as nat);
        let previous = spec_binomial(n as nat, (k - 1) as nat);
        assert(previous * ((n - k + 1) as nat) == scaled@) by (nonlinear_arith)
            requires
                k * spec_binomial(n as nat, k as nat) == (n - (k - 1)) * previous,
                scaled@ == spec_binomial(n as nat, k as nat) * (k as nat),
        ;
        lemma_exact_quotient(scaled@, (n - k + 1) as nat, previous);
    }
    quotient
}

} // verus!
