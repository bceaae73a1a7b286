//! Positional notation in radix `2^64`.
//!
//! The number that a little-endian sequence of 64-bit limbs denotes, and the
//! facts about it on which the arithmetic of [`crate::bignat::BigNat`] rests.

use vstd::prelude::*;

verus! {

/// The radix of one limb, `2^64`.
pub open spec fn limb_base() -> nat {
    0x1_0000_0000_0000_0000
}

/// `limb_base()` raised to the power `e`.
pub open spec fn base_pow(e: nat) -> nat
    decreases e,
{
    if e == 0 {
        1
    } else {
        limb_base() * base_pow((e - 1) as nat)
    }
}

/// The natural number denoted by little-endian limbs: the sum of
/// `s[i] * limb_base()^i`.
pub open spec fn limbs_value(s: Seq<u64>) -> nat
    decreases s.len(),
{
    if s.len() == 0 {
        0
    } else {
        limbs_value(s.drop_last()) + s.last() as nat * base_pow((s.len() - 1) as nat)
    }
}

/// Limbs are canonical when the most significant one is not zero.
pub open spec fn canonical(s: Seq<u64>) -> bool {
    s.len() == 0 || s.last() != 0
}

/// A power of the radix is never zero.
pub proof fn lemma_base_pow_positive(e: nat)
    ensures
        base_pow(e) >= 1,
    decreases e,
{
    if e > 0 {
        lemma_base_pow_positive((e - 1) as nat);
        assert(limb_base() * base_pow((e - 1) as nat) >= 1) by (nonlinear_arith)
            requires
                limb_base() >= 1,
                base_pow((e - 1) as nat) >= 1,
        ;
    }
}

/// Powers of the radix grow with the exponent.
pub proof fn lemma_base_pow_monotonic(a: nat, b: nat)
    requires
        a <= b,
    ensures
        base_pow(a) <= base_pow(b),
    decreases b,
{
    if a < b {
        lemma_base_pow_monotonic(a, (b - 1) as nat);
        lemma_base_pow_positive((b - 1) as nat);
        assert(limb_base() * base_pow((b - 1) as nat) >= base_pow((b - 1) as nat))
            by (nonlinear_arith)
            requires
                limb_base() >= 1,
        ;
    }
}

/// A limb sequence of length `n` denotes a number below `limb_base()^n`.
pub proof fn lemma_limbs_value_bound(s: Seq<u64>)
    ensures
        limbs_value(s) < base_pow(s.len()),
    decreases s.len(),
{
    if s.len() > 0 {
        let n = (s.len() - 1) as nat;
        lemma_limbs_value_bound(s.drop_last());
        assert(limbs_value(s.drop_last()) + s.last() as nat * base_pow(n) < limb_base()
            * base_pow(n)) by (nonlinear_arith)
            requires
                limbs_value(s.drop_last()) < base_pow(n),
                (s.last() as nat) < limb_base(),
        ;
    }
}

/// Canonical, non-empty limbs of length `n` denote at least `limb_base()^(n-1)`.
pub proof fn lemma_canonical_lower_bound(s: Seq<u64>)
    requires
        s.len() > 0,
        s.last() != 0,
    ensures
        limbs_value(s) >= base_pow((s.len() - 1) as nat),
{
    let n = (s.len() - 1) as nat;
    assert(s.last() as nat * base_pow(n) >= base_pow(n)) by (nonlinear_arith)
        requires
            s.last() as nat >= 1,
    ;
}

/// Horner form: the least significant limb plus the radix times the rest.
pub proof fn lemma_limbs_value_horner(s: Seq<u64>)
    requires
        s.len() > 0,
    ensures
        limbs_value(s) == s[0] as nat + limb_base() * limbs_value(s.drop_first()),
    decreases s.len(),
{
    let init = s.drop_last();
    let rest = s.drop_first();
    if s.len() == 1 {
        assert(init.len() == 0);
        assert(rest.len() == 0);
        assert(limbs_value(init) == 0);
        assert(limbs_value(rest) == 0);
        assert(base_pow(0) == 1);
    } else {
        let n = (s.len() - 1) as nat;
        lemma_limbs_value_horner(init);
        assert(init.drop_first() =~= rest.drop_last());
        assert(init[0] == s[0]);
        assert(rest.last() == s.last());
        let mid = limbs_value(rest.drop_last());
        let top = s.last() as nat;
        let p = base_pow((n - 1) as nat);
        assert(limbs_value(rest) == mid + top * p);
        assert(base_pow(n) == limb_base() * p);
        assert(limb_base() * (mid + top * p) == limb_base() * mid + top * (limb_base() * p))
            by (nonlinear_arith);
    }
}

/// Split form: the low `i` limbs plus `limb_base()^i` times the remaining ones.
pub proof fn lemma_limbs_value_split(s: Seq<u64>, i: int)
    requires
        0 <= i <= s.len(),
    ensures
        limbs_value(s) == limbs_value(s.take(i)) + base_pow(i as nat) * limbs_value(s.skip(i)),
    decreases i,
{
    if i == 0 {
        assert(s.take(0).len() == 0);
        assert(s.skip(0) =~= s);
        assert(base_pow(0) == 1);
        assert(1 * limbs_value(s) == limbs_value(s)) by (nonlinear_arith);
    } else {
        let rest = s.drop_first();
        lemma_limbs_value_horner(s);
        lemma_limbs_value_split(rest, i - 1);
        lemma_limbs_value_horner(s.take(i));
        assert(s.take(i).drop_first() =~= rest.take(i - 1));
        assert(rest.skip(i - 1) =~= s.skip(i));
        assert(s.take(i)[0] == s[0]);
        let low = limbs_value(rest.take(i - 1));
        let high = limbs_value(s.skip(i));
        let p = base_pow((i - 1) as nat);
        assert(base_pow(i as nat) == limb_base() * p);
        assert(limb_base() * (low + p * high) == limb_base() * low + (limb_base() * p) * high)
            by (nonlinear_arith);
    }
}

/// The limb at position `i`, or zero beyond the end.
pub open spec fn limb_or_zero(s: Seq<u64>, i: nat) -> nat {
    if i < s.len() {
        s[i as int] as nat
    } else {
        0
    }
}

/// The number denoted by the lowest `i` limbs of `s` (all of them when `s`
/// is shorter than `i`).
pub open spec fn prefix_value(s: Seq<u64>, i: nat) -> nat {
    if i < s.len() {
        limbs_value(s.take(i as int))
    } else {
        limbs_value(s)
    }
}

/// One more limb adds that limb at its weight; beyond the end it adds
/// nothing.
pub proof fn lemma_prefix_value_step(s: Seq<u64>, i: nat)
    ensures
        prefix_value(s, i + 1) == prefix_value(s, i) + limb_or_zero(s, i) * base_pow(i),
{
    if i < s.len() {
        let t = s.take(i + 1 as int);
        assert(t.drop_last() =~= s.take(i as int));
        assert(t.last() == s[i as int]);
        if i + 1 == s.len() {
            assert(t =~= s);
        }
    } else {
        assert(0 * base_pow(i) == 0) by (nonlinear_arith);
    }
}

/// Appending the low limb of `t` and carrying its high part keeps the
/// running total: `t` enters at weight `limb_base()^i`.
pub proof fn lemma_push_limb(out: Seq<u64>, low: u64, high: nat, t: nat)
    requires
        t == low + high * limb_base(),
    ensures
        limbs_value(out.push(low)) + high * base_pow(out.len() + 1) == limbs_value(out) + t
            * base_pow(out.len()),
{
    let next = out.push(low);
    let p = base_pow(out.len());
    assert(next.drop_last() =~= out);
    assert(next.last() == low);
    assert(base_pow(out.len() + 1) == limb_base() * p);
    assert(low as nat * p + high * (limb_base() * p) == (low + high * limb_base()) * p)
        by (nonlinear_arith);
}

/// Two limb sequences of one length that agree above position `i` are
/// ordered as their limbs at `i` are.
pub proof fn lemma_limbs_order_at(a: Seq<u64>, b: Seq<u64>, i: int)
    requires
        a.len() == b.len(),
        0 <= i < a.len(),
        a.skip(i + 1) == b.skip(i + 1),
        a[i] < b[i],
    ensures
        limbs_value(a) < limbs_value(b),
{
    lemma_limbs_value_split(a, i);
    lemma_limbs_value_split(b, i);
    lemma_limbs_value_horner(a.skip(i));
    lemma_limbs_value_horner(b.skip(i));
    assert(a.skip(i).drop_first() =~= a.skip(i + 1));
    assert(b.skip(i).drop_first() =~= b.skip(i + 1));
    lemma_limbs_value_bound(a.take(i));
    let p = base_pow(i as nat);
    let above = limbs_value(a.skip(i + 1));
    let x = a[i] as nat;
    let y = b[i] as nat;
    let low_a = limbs_value(a.take(i));
    let low_b = limbs_value(b.take(i));
    assert(low_a + p * (x + limb_base() * above) < low_b + p * (y + limb_base() * above))
        by (nonlinear_arith)
        requires
            low_a < p,
            x < y,
    ;
}

/// Two limb sequences of one length that denote one number and agree
/// above position `i` agree everywhere.
proof fn lemma_equal_below(a: Seq<u64>, b: Seq<u64>, i: int)
    requires
        a.len() == b.len(),
        0 <= i <= a.len(),
        a.skip(i) == b.skip(i),
        limbs_value(a) == limbs_value(b),
    ensures
        a == b,
    decreases i,
{
    if i == 0 {
        assert(a.skip(0) =~= a);
        assert(b.skip(0) =~= b);
    } else {
        if a[i - 1] < b[i - 1] {
            lemma_limbs_order_at(a, b, i - 1);
        } else if b[i - 1] < a[i - 1] {
            lemma_limbs_order_at(b, a, i - 1);
        } else {
            assert(a.skip(i - 1) =~= seq![a[i - 1]] + a.skip(i));
            assert(b.skip(i - 1) =~= seq![b[i - 1]] + b.skip(i));
            lemma_equal_below(a, b, i - 1);
        }
    }
}

/// A number has one canonical notation: canonical limb sequences that
/// denote the same number are the same sequence.
pub proof fn lemma_canonical_unique(a: Seq<u64>, b: Seq<u64>)
    requires
        canonical(a),
        canonical(b),
        limbs_value(a) == limbs_value(b),
    ensures
        a == b,
{
    if a.len() < b.len() {
        lemma_limbs_value_bound(a);
        lemma_canonical_lower_bound(b);
        lemma_base_pow_monotonic(a.len(), (b.len() - 1) as nat);
    } else if b.len() < a.len() {
        lemma_limbs_value_bound(b);
        lemma_canonical_lower_bound(a);
        lemma_base_pow_monotonic(b.len(), (a.len() - 1) as nat);
    } else {
        assert(a.skip(a.len() as int) =~= b.skip(a.len() as int));
        lemma_equal_below(a, b, a.len() as int);
    }
}

} // verus!
