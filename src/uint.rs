//! A 256-bit unsigned integer held as four 64-bit limbs, least significant
//! first, with its mathematical value as the model.

use vstd::prelude::*;

verus! {

/// Base of one limb.
pub open spec fn limb_base() -> int {
    0x1_0000_0000_0000_0000
}

/// One past the largest value a `U256` holds.
pub open spec fn u256_bound() -> int {
    limb_base() * limb_base() * limb_base() * limb_base()
}

/// Unsigned 256-bit integer.
#[derive(Clone, Copy, Debug, PartialEq, Eq, Structural)]
pub struct U256 {
    pub l0: u64,
    pub l1: u64,
    pub l2: u64,
    pub l3: u64,
}

impl U256 {
    pub open spec fn v3(self) -> int {
        self.l3 as int
    }

    pub open spec fn v2(self) -> int {
        self.l2 + limb_base() * self.v3()
    }

    pub open spec fn v1(self) -> int {
        self.l1 + limb_base() * self.v2()
    }

    /// The number this value stands for.
    pub open spec fn value(self) -> int {
        self.l0 + limb_base() * self.v1()
    }

    pub fn zero() -> (r: U256)
        ensures
            r.value() == 0,
    {
        U256 { l0: 0, l1: 0, l2: 0, l3: 0 }
    }

    pub fn from_u64(v: u64) -> (r: U256)
        ensures
            r.value() == v,
    {
        U256 { l0: v, l1: 0, l2: 0, l3: 0 }
    }

    pub fn is_zero(&self) -> (r: bool)
        ensures
            r == (self.value() == 0),
    {
        proof {
            lemma_value_nonneg(*self);
            lemma_limbs_eq(*self, U256 { l0: 0, l1: 0, l2: 0, l3: 0 });
        }
        self.l0 == 0 && self.l1 == 0 && self.l2 == 0 && self.l3 == 0
    }

    /// The value of a 128-bit integer, split into limbs.
    pub open spec fn of_u128(x: u128) -> U256 {
        U256 {
            l0: (x % 0x1_0000_0000_0000_0000) as u64,
            l1: (x / 0x1_0000_0000_0000_0000) as u64,
            l2: 0,
            l3: 0,
        }
    }

    pub fn from_u128(x: u128) -> (r: U256)
        ensures
            r == U256::of_u128(x),
            r.value() == x,
    {
        let r = U256 {
            l0: (x % 0x1_0000_0000_0000_0000) as u64,
            l1: (x / 0x1_0000_0000_0000_0000) as u64,
            l2: 0,
            l3: 0,
        };
        assert(x == (x / 0x1_0000_0000_0000_0000) * 0x1_0000_0000_0000_0000 + x
            % 0x1_0000_0000_0000_0000) by (nonlinear_arith);
        r
    }

    /// `self < o` by value.
    pub fn lt(&self, o: &U256) -> (r: bool)
        ensures
            r == (self.value() < o.value()),
    {
        proof {
            lemma_limbs_lt(*self, *o);
        }
        if self.l3 != o.l3 {
            self.l3 < o.l3
        } else if self.l2 != o.l2 {
            self.l2 < o.l2
        } else if self.l1 != o.l1 {
            self.l1 < o.l1
        } else {
            self.l0 < o.l0
        }
    }

    /// `self <= o` by value.
    pub fn le(&self, o: &U256) -> (r: bool)
        ensures
            r == (self.value() <= o.value()),
    {
        !o.lt(self)
    }

    /// `self == o` by value.
    pub fn eq_value(&self, o: &U256) -> (r: bool)
        ensures
            r == (self.value() == o.value()),
    {
        proof {
            lemma_limbs_eq(*self, *o);
        }
        self.l0 == o.l0 && self.l1 == o.l1 && self.l2 == o.l2 && self.l3 == o.l3
    }

    /// The smaller of two values.
    pub fn min(&self, o: &U256) -> (r: U256)
        ensures
            r.value() == if self.value() <= o.value() { self.value() } else { o.value() },
    {
        if self.le(o) {
            *self
        } else {
            *o
        }
    }
}

/// Comparison of `x + B * hi_x` against `y + B * hi_y` when the low parts are limbs.
pub proof fn lemma_lex(x: int, hx: int, y: int, hy: int)
    requires
        0 <= x < limb_base(),
        0 <= y < limb_base(),
        0 <= hx,
        0 <= hy,
    ensures
        (x + limb_base() * hx < y + limb_base() * hy) == (hx < hy || (hx == hy && x < y)),
        (x + limb_base() * hx == y + limb_base() * hy) == (hx == hy && x == y),
{
    let b = limb_base();
    if hx < hy {
        assert(b * hx + b <= b * hy) by (nonlinear_arith)
            requires
                hx + 1 <= hy,
                b > 0,
        ;
    } else if hy < hx {
        assert(b * hy + b <= b * hx) by (nonlinear_arith)
            requires
                hy + 1 <= hx,
                b > 0,
        ;
    }
}

/// No partial value of the limbs is negative.
pub proof fn lemma_value_nonneg(a: U256)
    ensures
        0 <= a.v3(),
        0 <= a.v2(),
        0 <= a.v1(),
        0 <= a.value(),
{
    let b = limb_base();
    assert(0 <= b * a.v3()) by (nonlinear_arith)
        requires
            0 <= a.v3(),
            b > 0,
    ;
    assert(0 <= b * a.v2()) by (nonlinear_arith)
        requires
            0 <= a.v2(),
            b > 0,
    ;
    assert(0 <= b * a.v1()) by (nonlinear_arith)
        requires
            0 <= a.v1(),
            b > 0,
    ;
}

/// Ordering by value is the lexicographic ordering of the limbs, top first.
pub proof fn lemma_limbs_lt(a: U256, c: U256)
    ensures
        (a.value() < c.value()) == (a.l3 < c.l3 || (a.l3 == c.l3 && (a.l2 < c.l2 || (a.l2
            == c.l2 && (a.l1 < c.l1 || (a.l1 == c.l1 && a.l0 < c.l0)))))),
{
    lemma_value_nonneg(a);
    lemma_value_nonneg(c);
    lemma_lex(a.l2 as int, a.v3(), c.l2 as int, c.v3());
    lemma_lex(a.l1 as int, a.v2(), c.l1 as int, c.v2());
    lemma_lex(a.l0 as int, a.v1(), c.l0 as int, c.v1());
}

/// Two values are equal exactly when their limbs are.
pub proof fn lemma_limbs_eq(a: U256, c: U256)
    ensures
        (a.value() == c.value()) == (a == c),
{
    lemma_value_nonneg(a);
    lemma_value_nonneg(c);
    lemma_lex(a.l2 as int, a.v3(), c.l2 as int, c.v3());
    lemma_lex(a.l1 as int, a.v2(), c.l1 as int, c.v2());
    lemma_lex(a.l0 as int, a.v1(), c.l0 as int, c.v1());
}

} // verus!

verus! {

/// Relies on `ethers::types::U256::checked_add`: the sum, or `None` where it
/// does not fit in 256 bits.
#[verifier::external_body]
pub(crate) fn checked_add(a: &U256, b: &U256) -> (r: Option<U256>)
    ensures
        r matches Some(v) ==> v.value() == a.value() + b.value(),
        r is None ==> a.value() + b.value() >= u256_bound(),
{
    let x = ethers::types::U256([a.l0, a.l1, a.l2, a.l3]);
    match x.checked_add(ethers::types::U256([b.l0, b.l1, b.l2, b.l3])) {
        Some(v) => Some(U256 { l0: v.0[0], l1: v.0[1], l2: v.0[2], l3: v.0[3] }),
        None => None,
    }
}

/// Relies on `ethers::types::U256::checked_sub`: the difference, or `None`
/// where it would be negative.
#[verifier::external_body]
pub(crate) fn checked_sub(a: &U256, b: &U256) -> (r: Option<U256>)
    ensures
        r matches Some(v) ==> v.value() == a.value() - b.value(),
        r is None ==> a.value() < b.value(),
{
    let x = ethers::types::U256([a.l0, a.l1, a.l2, a.l3]);
    match x.checked_sub(ethers::types::U256([b.l0, b.l1, b.l2, b.l3])) {
        Some(v) => Some(U256 { l0: v.0[0], l1: v.0[1], l2: v.0[2], l3: v.0[3] }),
        None => None,
    }
}

/// Relies on `ethers::types::U256::checked_mul`: the product, or `None` where
/// it does not fit in 256 bits.
#[verifier::external_body]
pub(crate) fn checked_mul(a: &U256, b: &U256) -> (r: Option<U256>)
    ensures
        r matches Some(v) ==> v.value() == a.value() * b.value(),
        r is None ==> a.value() * b.value() >= u256_bound(),
{
    let x = ethers::types::U256([a.l0, a.l1, a.l2, a.l3]);
    match x.checked_mul(ethers::types::U256([b.l0, b.l1, b.l2, b.l3])) {
        Some(v) => Some(U256 { l0: v.0[0], l1: v.0[1], l2: v.0[2], l3: v.0[3] }),
        None => None,
    }
}

/// Relies on `ethers::types::U256::checked_div`: the quotient rounded down,
/// or `None` for a zero divisor.
#[verifier::external_body]
pub(crate) fn checked_div(a: &U256, b: &U256) -> (r: Option<U256>)
    ensures
        r matches Some(v) ==> b.value() != 0 && v.value() == a.value() / b.value(),
        r is None ==> b.value() == 0,
{
    let x = ethers::types::U256([a.l0, a.l1, a.l2, a.l3]);
    match x.checked_div(ethers::types::U256([b.l0, b.l1, b.l2, b.l3])) {
        Some(v) => Some(U256 { l0: v.0[0], l1: v.0[1], l2: v.0[2], l3: v.0[3] }),
        None => None,
    }
}

/// Every value lies below the bound.
pub proof fn lemma_value_bound(a: U256)
    ensures
        0 <= a.value() < u256_bound(),
{
    let b = limb_base();
    lemma_value_nonneg(a);
    assert(a.v2() < b * b) by (nonlinear_arith)
        requires
            a.v2() == a.l2 + b * a.v3(),
            0 <= a.l2 < b,
            0 <= a.v3() < b,
    ;
    assert(a.v1() < b * b * b) by (nonlinear_arith)
        requires
            a.v1() == a.l1 + b * a.v2(),
            0 <= a.l1 < b,
            0 <= a.v2() < b * b,
    ;
    assert(a.value() < b * b * b * b) by (nonlinear_arith)
        requires
            a.value() == a.l0 + b * a.v1(),
            0 <= a.l0 < b,
            0 <= a.v1() < b * b * b,
    ;
}

} // verus!
