//! Arbitrary-precision natural numbers.
//!
//! A [`BigNat`] is a little-endian vector of 64-bit limbs without a leading
//! zero limb. Its view is the natural number that the limbs denote, and every
//! operation is specified over that number alone.

use crate::limbs::{
    base_pow, canonical, lemma_base_pow_monotonic, lemma_base_pow_positive,
    lemma_canonical_lower_bound, lemma_limbs_order_at, lemma_limbs_value_bound,
    lemma_limbs_value_horner, lemma_prefix_value_step, lemma_push_limb, limb_base, limb_or_zero,
    limbs_value, prefix_value,
};
use vstd::arithmetic::div_mod::lemma_fundamental_div_mod_converse;
use vstd::prelude::*;

verus! {

/// A natural number of unbounded size.
#[derive(Debug)]
pub struct BigNat {
    limbs: Vec<u64>,
}

impl View for BigNat {
    type V = nat;

    closed spec fn view(&self) -> nat {
        limbs_value(self.limbs@)
    }
}

impl Clone for BigNat {
    fn clone(&self) -> (r: Self)
        ensures
            r@ == self@,
    {
        proof {
            use_type_invariant(self);
        }
        BigNat { limbs: self.limbs.clone() }
    }
}

impl BigNat {
    /// The limbs of every `BigNat` are canonical.
    #[verifier::type_invariant]
    spec fn well_formed(&self) -> bool {
        canonical(self.limbs@)
    }

    /// The number denoted by `limbs`, least significant limb first. Leading
    /// zero limbs are dropped.
    pub fn from_limbs(limbs: Vec<u64>) -> (r: BigNat)
        ensures
            r@ == limbs_value(limbs@),
    {
        let mut v = limbs;
        while v.len() > 0 && v[v.len() - 1] == 0
            invariant
                limbs_value(v@) == limbs_value(limbs@),
            decreases v.len(),
        {
            v.pop();
        }
        BigNat { limbs: v }
    }

    /// The canonical limbs of the number, least significant first: empty for
    /// zero, and otherwise ending in a non-zero limb.
    pub fn limbs(&self) -> (r: Vec<u64>)
        ensures
            limbs_value(r@) == self@,
            canonical(r@),
    {
        proof {
            use_type_invariant(self);
        }
        self.limbs.clone()
    }

    /// The number zero.
    pub fn zero() -> (r: BigNat)
        ensures
            r@ == 0,
    {
        BigNat { limbs: Vec::new() }
    }

    /// The number `x`.
    pub fn from_u64(x: u64) -> (r: BigNat)
        ensures
            r@ == x,
    {
        let mut v: Vec<u64> = Vec::new();
        v.push(x);
        proof {
            lemma_one_limb(v@);
        }
        BigNat::from_limbs(v)
    }

    /// The number `x`.
    pub fn from_u128(x: u128) -> (r: BigNat)
        ensures
            r@ == x,
    {
        let low: u64 = (x % 0x1_0000_0000_0000_0000u128) as u64;
        let high: u64 = (x / 0x1_0000_0000_0000_0000u128) as u64;
        let mut v: Vec<u64> = Vec::new();
        v.push(low);
        v.push(high);
        proof {
            lemma_two_limbs(v@);
        }
        BigNat::from_limbs(v)
    }

    /// Whether the number is zero.
    pub fn is_zero(&self) -> (r: bool)
        ensures
            r == (self@ == 0),
    {
        proof {
            use_type_invariant(self);
            if self.limbs@.len() > 0 {
                lemma_canonical_lower_bound(self.limbs@);
                lemma_base_pow_positive((self.limbs@.len() - 1) as nat);
            }
        }
        self.limbs.len() == 0
    }

    /// The number as a `u128`, if it is small enough.
    pub fn to_u128(&self) -> (r: Option<u128>)
        ensures
            self@ <= u128::MAX ==> r == Some(self@ as u128),
            self@ > u128::MAX ==> r.is_none(),
    {
        proof {
            use_type_invariant(self);
        }
        let n: usize = self.limbs.len();
        if n == 0 {
            Some(0)
        } else if n == 1 {
            proof {
                lemma_one_limb(self.limbs@);
            }
            Some(self.limbs[0] as u128)
        } else if n == 2 {
            proof {
                lemma_two_limbs(self.limbs@);
            }
            Some(self.limbs[1] as u128 * 0x1_0000_0000_0000_0000u128 + self.limbs[0] as u128)
        } else {
            proof {
                lemma_canonical_lower_bound(self.limbs@);
                lemma_base_pow_monotonic(2, (n - 1) as nat);
                lemma_base_pow_two();
            }
            None
        }
    }

    /// Whether `self` is strictly less than `other`.
    pub fn lt(&self, other: &BigNat) -> (r: bool)
        ensures
            r == (self@ < other@),
    {
        proof {
            use_type_invariant(self);
            use_type_invariant(other);
        }
        let la: usize = self.limbs.len();
        let lb: usize = other.limbs.len();
        if la != lb {
            proof {
                if la < lb {
                    lemma_limbs_value_bound(self.limbs@);
                    lemma_canonical_lower_bound(other.limbs@);
                    lemma_base_pow_monotonic(la as nat, (lb - 1) as nat);
                } else {
                    lemma_limbs_value_bound(other.limbs@);
                    lemma_canonical_lower_bound(self.limbs@);
                    lemma_base_pow_monotonic(lb as nat, (la - 1) as nat);
                }
            }
            return la < lb;
        }
        let mut i: usize = la;
        while i > 0
            invariant
                i <= la,
                la == self.limbs.len(),
                la == other.limbs.len(),
                self.limbs@.skip(i as int) == other.limbs@.skip(i as int),
            decreases i,
        {
            i -= 1;
            let x: u64 = self.limbs[i];
            let y: u64 = other.limbs[i];
            if x != y {
                proof {
                    if x < y {
                        lemma_limbs_order_at(self.limbs@, other.limbs@, i as int);
                    } else {
                        lemma_limbs_order_at(other.limbs@, self.limbs@, i as int);
                    }
                }
                return x < y;
            }
            assert(self.limbs@.skip(i as int) =~= seq![x] + self.limbs@.skip(i + 1));
            assert(other.limbs@.skip(i as int) =~= seq![y] + other.limbs@.skip(i + 1));
        }
        assert(self.limbs@ =~= self.limbs@.skip(0));
        assert(other.limbs@ =~= other.limbs@.skip(0));
        false
    }

    /// Whether `self` is at most `other`.
    pub fn le(&self, other: &BigNat) -> (r: bool)
        ensures
            r == (self@ <= other@),
    {
        !other.lt(self)
    }

    /// Whether `self` and `other` are the same number.
    pub fn equals(&self, other: &BigNat) -> (r: bool)
        ensures
            r == (self@ == other@),
    {
        !self.lt(other) && !other.lt(self)
    }

    /// The sum of two numbers.
    pub fn add(&self, other: &BigNat) -> (r: BigNat)
        ensures
            r@ == self@ + other@,
    {
        let la: usize = self.limbs.len();
        let lb: usize = other.limbs.len();
        let n: usize = if la > lb {
            la
        } else {
            lb
        };
        let mut out: Vec<u64> = Vec::new();
        let mut carry: u64 = 0;
        let mut i: usize = 0;
        proof {
            assert(self.limbs@.take(0).len() == 0);
            assert(other.limbs@.take(0).len() == 0);
            assert(0 * base_pow(0) == 0);
        }
        while i < n
            invariant
                i <= n,
                la == self.limbs.len(),
                lb == other.limbs.len(),
                n >= la,
                n >= lb,
                out.len() == i,
                carry <= 1,
                limbs_value(out@) + carry * base_pow(i as nat) == prefix_value(
                    self.limbs@,
                    i as nat,
                ) + prefix_value(other.limbs@, i as nat),
            decreases n - i,
        {
            let x: u64 = if i < la {
                self.limbs[i]
            } else {
                0
            };
            let y: u64 = if i < lb {
                other.limbs[i]
            } else {
                0
            };
            let t: u128 = x as u128 + y as u128 + carry as u128;
            let low: u64 = (t % 0x1_0000_0000_0000_0000u128) as u64;
            let high: u64 = (t / 0x1_0000_0000_0000_0000u128) as u64;
            proof {
                lemma_prefix_value_step(self.limbs@, i as nat);
                lemma_prefix_value_step(other.limbs@, i as nat);
                lemma_push_limb(out@, low, high as nat, t as nat);
                let p = base_pow(i as nat);
                assert((x + y + carry) * p == x * p + y * p + carry * p) by (nonlinear_arith);
                assert(x == limb_or_zero(self.limbs@, i as nat));
                assert(y == limb_or_zero(other.limbs@, i as nat));
            }
            out.push(low);
            carry = high;
            i += 1;
        }
        proof {
            lemma_push_limb(out@, carry, 0, carry as nat);
            assert(0 * base_pow(out@.len() + 1) == 0);
        }
        out.push(carry);
        BigNat::from_limbs(out)
    }

    /// The product of a number and a machine word.
    pub fn mul_small(&self, m: u64) -> (r: BigNat)
        ensures
            r@ == self@ * m,
    {
        let n: usize = self.limbs.len();
        let mut out: Vec<u64> = Vec::new();
        let mut carry: u64 = 0;
        let mut i: usize = 0;
        proof {
            assert(self.limbs@.take(0).len() == 0);
            assert(0 * base_pow(0) == 0);
            assert(prefix_value(self.limbs@, 0) * m == 0) by (nonlinear_arith)
                requires
                    prefix_value(self.limbs@, 0) == 0,
            ;
        }
        while i < n
            invariant
                i <= n,
                n == self.limbs.len(),
                out.len() == i,
                limbs_value(out@) + carry * base_pow(i as nat) == prefix_value(
                    self.limbs@,
                    i as nat,
                ) * m,
            decreases n - i,
        {
            let x: u64 = self.limbs[i];
            assert(x * m + carry <= u128::MAX) by (nonlinear_arith)
                requires
                    x <= u64::MAX,
                    m <= u64::MAX,
                    carry <= u64::MAX,
            ;
            let t: u128 = x as u128 * m as u128 + carry as u128;
            assert(t / 0x1_0000_0000_0000_0000u128 <= u64::MAX) by (nonlinear_arith)
                requires
                    t == x * m + carry,
                    x <= u64::MAX,
                    m <= u64::MAX,
                    carry <= u64::MAX,
            ;
            let low: u64 = (t % 0x1_0000_0000_0000_0000u128) as u64;
            let high: u64 = (t / 0x1_0000_0000_0000_0000u128) as u64;
            proof {
                lemma_prefix_value_step(self.limbs@, i as nat);
                lemma_push_limb(out@, low, high as nat, t as nat);
                let p = base_pow(i as nat);
                let before = prefix_value(self.limbs@, i as nat);
                assert((before + x * p) * m == before * m + (x * m) * p) by (nonlinear_arith);
                assert((x * m + carry) * p == (x * m) * p + carry * p) by (nonlinear_arith);
            }
            out.push(low);
            carry = high;
            i += 1;
        }
        proof {
            lemma_push_limb(out@, carry, 0, carry as nat);
            assert(0 * base_pow(out@.len() + 1) == 0);
        }
        out.push(carry);
        BigNat::from_limbs(out)
    }

    /// The number times `2^64`.
    pub fn shift_limb(&self) -> (r: BigNat)
        ensures
            r@ == self@ * limb_base(),
    {
        let mut out: Vec<u64> = self.limbs.clone();
        out.insert(0, 0);
        proof {
            lemma_limbs_value_horner(out@);
            assert(out@.drop_first() =~= self.limbs@);
            assert(limb_base() * limbs_value(self.limbs@) == limbs_value(self.limbs@)
                * limb_base()) by (nonlinear_arith);
        }
        BigNat::from_limbs(out)
    }

    /// The product of two numbers.
    pub fn mul(&self, other: &BigNat) -> (r: BigNat)
        ensures
            r@ == self@ * other@,
    {
        let mut acc: BigNat = BigNat::zero();
        let mut i: usize = other.limbs.len();
        proof {
            assert(other.limbs@.skip(i as int).len() == 0);
            assert(self@ * 0 == 0);
        }
        while i > 0
            invariant
                i <= other.limbs.len(),
                acc@ == self@ * limbs_value(other.limbs@.skip(i as int)),
            decreases i,
        {
            i -= 1;
            let row: BigNat = self.mul_small(other.limbs[i]);
            let shifted: BigNat = acc.shift_limb();
            proof {
                let tail = other.limbs@.skip(i as int);
                lemma_limbs_value_horner(tail);
                assert(tail.drop_first() =~= other.limbs@.skip(i + 1));
                let above = limbs_value(other.limbs@.skip(i + 1));
                let x = other.limbs@[i as int] as nat;
                let a = self@;
                assert(a * x + (a * above) * limb_base() == a * (x + limb_base() * above))
                    by (nonlinear_arith);
            }
            acc = row.add(&shifted);
        }
        assert(other.limbs@.skip(0) =~= other.limbs@);
        acc
    }

    /// Quotient and remainder of the division by a non-zero machine word.
    pub fn div_rem_small(&self, d: u64) -> (r: (BigNat, u64))
        requires
            d > 0,
        ensures
            r.0@ == self@ / (d as nat),
            r.1 == self@ % (d as nat),
    {
        let n: usize = self.limbs.len();
        let mut quotient: Vec<u64> = vec![0u64; n];
        let mut rem: u64 = 0;
        let mut i: usize = n;
        proof {
            assert(self.limbs@.skip(i as int).len() == 0);
            assert(quotient@.skip(i as int).len() == 0);
            assert(0 * d == 0);
        }
        while i > 0
            invariant
                i <= n,
                n == self.limbs.len(),
                n == quotient.len(),
                d > 0,
                rem < d,
                limbs_value(self.limbs@.skip(i as int)) == limbs_value(quotient@.skip(i as int))
                    * d + rem,
            decreases i,
        {
            i -= 1;
            let x: u64 = self.limbs[i];
            let cur: u128 = rem as u128 * 0x1_0000_0000_0000_0000u128 + x as u128;
            assert(cur / (d as u128) <= u64::MAX) by (nonlinear_arith)
                requires
                    cur == rem * 0x1_0000_0000_0000_0000 + x,
                    rem < d,
                    x <= u64::MAX,
                    d > 0,
            ;
            let digit: u64 = (cur / (d as u128)) as u64;
            let next: u64 = (cur % (d as u128)) as u64;
            let ghost before = quotient@;
            quotient.set(i, digit);
            proof {
                let a_tail = self.limbs@.skip(i as int);
                let q_tail = quotient@.skip(i as int);
                lemma_limbs_value_horner(a_tail);
                lemma_limbs_value_horner(q_tail);
                assert(a_tail.drop_first() =~= self.limbs@.skip(i + 1));
                assert(q_tail.drop_first() =~= before.skip(i + 1));
                let qa = limbs_value(before.skip(i + 1));
                assert(cur == digit * d + next) by (nonlinear_arith)
                    requires
                        digit == cur / (d as u128),
                        next == cur % (d as u128),
                        d > 0,
                ;
                assert(x + limb_base() * (qa * d + rem) == (digit + limb_base() * qa) * d + next)
                    by (nonlinear_arith)
                    requires
                        rem * limb_base() + x == digit * d + next,
                ;
            }
            rem = next;
        }
        proof {
            assert(self.limbs@.skip(0) =~= self.limbs@);
            assert(quotient@.skip(0) =~= quotient@);
            let q = limbs_value(quotient@);
            assert(q * d == d * q) by (nonlinear_arith);
            lemma_fundamental_div_mod_converse(self@ as int, d as int, q as int, rem as int);
        }
        (BigNat::from_limbs(quotient), rem)
    }
}

/// One limb denotes itself.
proof fn lemma_one_limb(s: Seq<u64>)
    requires
        s.len() == 1,
    ensures
        limbs_value(s) == s[0],
{
    assert(s.drop_last().len() == 0);
    assert(limbs_value(s.drop_last()) == 0);
    assert(base_pow(0) == 1);
    assert(limbs_value(s) == s[0] as nat * 1);
}

/// The first two powers of the radix; the second is beyond a `u128`.
proof fn lemma_base_pow_two()
    ensures
        base_pow(1) == limb_base(),
        base_pow(2) == limb_base() * limb_base(),
        base_pow(2) > u128::MAX,
{
    assert(base_pow(0) == 1);
    assert(base_pow(1) == limb_base() * base_pow(0));
    assert(base_pow(2) == limb_base() * base_pow(1));
}

/// Two limbs denote the low one plus the radix times the high one.
proof fn lemma_two_limbs(s: Seq<u64>)
    requires
        s.len() == 2,
    ensures
        limbs_value(s) == s[0] + s[1] * limb_base(),
{
    lemma_one_limb(s.drop_last());
    lemma_base_pow_two();
    assert(s.drop_last()[0] == s[0]);
    assert(limbs_value(s) == limbs_value(s.drop_last()) + s[1] as nat * base_pow(1));
}

} // verus!
