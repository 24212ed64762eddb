//! Unsigned 256-bit integers, held as four 64-bit limbs and viewed as a
//! natural number. Sums, differences, products and quotients are computed by
//! `alloy_primitives::U256`; comparisons are proved here.

use vstd::prelude::*;

verus! {

/// The least natural number that no `U256` holds: two to the power 256.
pub open spec fn modulus() -> nat {
    0x1_0000_0000_0000_0000_0000_0000_0000_0000_0000_0000_0000_0000_0000_0000_0000_0000nat
}

/// An unsigned 256-bit integer; `limb0` is the least significant limb.
#[derive(Clone, Copy, Debug, PartialEq, Eq, Structural)]
pub struct U256 {
    pub limb0: u64,
    pub limb1: u64,
    pub limb2: u64,
    pub limb3: u64,
}

impl View for U256 {
    type V = nat;

    open spec fn view(&self) -> nat {
        (self.limb0 as nat) + (self.limb1 as nat) * 0x1_0000_0000_0000_0000nat
            + (self.limb2 as nat) * 0x1_0000_0000_0000_0000_0000_0000_0000_0000nat
            + (self.limb3 as nat) * 0x1_0000_0000_0000_0000_0000_0000_0000_0000_0000_0000_0000_0000nat
    }
}

/// Two values with the same view have the same limbs: a contract that gives
/// the view of a result says which value it is.
pub proof fn lemma_view_injective(a: U256, b: U256)
    requires
        a@ == b@,
    ensures
        a == b,
{
    assert(a.limb3 == b.limb3);
    assert(a.limb2 == b.limb2);
    assert(a.limb1 == b.limb1);
}

impl U256 {
    /// Zero.
    pub fn zero() -> (r: U256)
        ensures
            r@ == 0,
    {
        U256 { limb0: 0, limb1: 0, limb2: 0, limb3: 0 }
    }

    /// The value of a 64-bit integer.
    pub fn from_u64(v: u64) -> (r: U256)
        ensures
            r@ == v,
    {
        U256 { limb0: v, limb1: 0, limb2: 0, limb3: 0 }
    }

    /// The value whose limbs, least significant first, are `limbs`.
    pub fn from_limbs(limbs: [u64; 4]) -> (r: U256)
        ensures
            r.limb0 == limbs[0],
            r.limb1 == limbs[1],
            r.limb2 == limbs[2],
            r.limb3 == limbs[3],
    {
        U256 { limb0: limbs[0], limb1: limbs[1], limb2: limbs[2], limb3: limbs[3] }
    }

    /// The four limbs, least significant first.
    pub fn to_limbs(self) -> (r: [u64; 4])
        ensures
            r[0] == self.limb0,
            r[1] == self.limb1,
            r[2] == self.limb2,
            r[3] == self.limb3,
    {
        [self.limb0, self.limb1, self.limb2, self.limb3]
    }

    /// Whether the value is zero.
    pub fn is_zero(self) -> (r: bool)
        ensures
            r == (self@ == 0),
    {
        self.limb0 == 0 && self.limb1 == 0 && self.limb2 == 0 && self.limb3 == 0
    }

    /// Whether `self` is strictly less than `other`.
    pub fn lt(self, other: U256) -> (r: bool)
        ensures
            r == (self@ < other@),
    {
        if self.limb3 != other.limb3 {
            self.limb3 < other.limb3
        } else if self.limb2 != other.limb2 {
            self.limb2 < other.limb2
        } else if self.limb1 != other.limb1 {
            self.limb1 < other.limb1
        } else {
            self.limb0 < other.limb0
        }
    }

    /// Whether `self` is at most `other`.
    pub fn le(self, other: U256) -> (r: bool)
        ensures
            r == (self@ <= other@),
    {
        !other.lt(self)
    }

    /// The sum, or `None` where it does not fit in 256 bits.
    pub fn checked_add(self, rhs: U256) -> (r: Option<U256>)
        ensures
            self@ + rhs@ < modulus() ==> r is Some && r->0@ == self@ + rhs@,
            self@ + rhs@ >= modulus() ==> r is None,
    {
        add_256(self, rhs)
    }

    /// The difference, or `None` where `rhs` is the larger.
    pub fn checked_sub(self, rhs: U256) -> (r: Option<U256>)
        ensures
            self@ >= rhs@ ==> r is Some && r->0@ == self@ - rhs@,
            self@ < rhs@ ==> r is None,
    {
        sub_256(self, rhs)
    }

    /// The product, or `None` where it does not fit in 256 bits.
    pub fn checked_mul(self, rhs: U256) -> (r: Option<U256>)
        ensures
            self@ * rhs@ < modulus() ==> r is Some && r->0@ == self@ * rhs@,
            self@ * rhs@ >= modulus() ==> r is None,
    {
        mul_256(self, rhs)
    }

    /// The quotient rounded down, or `None` where `rhs` is zero.
    pub fn checked_div(self, rhs: U256) -> (r: Option<U256>)
        ensures
            rhs@ != 0 ==> r is Some && r->0@ == self@ / rhs@,
            rhs@ == 0 ==> r is None,
    {
        div_256(self, rhs)
    }
}

/// Trusted: `Uint::checked_add` of ruint, reached as `alloy_primitives::U256`.
/// It adds limb by limb with carry and gives `None` exactly when a carry
/// leaves the top limb.
#[verifier::external_body]
fn add_256(a: U256, b: U256) -> (r: Option<U256>)
    ensures
        a@ + b@ < modulus() ==> r is Some && r->0@ == a@ + b@,
        a@ + b@ >= modulus() ==> r is None,
{
    let x = alloy_primitives::U256::from_limbs([a.limb0, a.limb1, a.limb2, a.limb3]);
    let y = alloy_primitives::U256::from_limbs([b.limb0, b.limb1, b.limb2, b.limb3]);
    match x.checked_add(y) {
        Some(v) => {
            let limbs = v.into_limbs();
            Some(U256 { limb0: limbs[0], limb1: limbs[1], limb2: limbs[2], limb3: limbs[3] })
        },
        None => None,
    }
}

/// Trusted: `Uint::checked_sub` of ruint, reached as `alloy_primitives::U256`.
/// It subtracts limb by limb with borrow and gives `None` exactly when a
/// borrow leaves the top limb.
#[verifier::external_body]
fn sub_256(a: U256, b: U256) -> (r: Option<U256>)
    ensures
        a@ >= b@ ==> r is Some && r->0@ == a@ - b@,
        a@ < b@ ==> r is None,
{
    let x = alloy_primitives::U256::from_limbs([a.limb0, a.limb1, a.limb2, a.limb3]);
    let y = alloy_primitives::U256::from_limbs([b.limb0, b.limb1, b.limb2, b.limb3]);
    match x.checked_sub(y) {
        Some(v) => {
            let limbs = v.into_limbs();
            Some(U256 { limb0: limbs[0], limb1: limbs[1], limb2: limbs[2], limb3: limbs[3] })
        },
        None => None,
    }
}

/// Trusted: `Uint::checked_mul` of ruint, reached as `alloy_primitives::U256`.
/// It gives the product where that fits in 256 bits and `None` otherwise.
#[verifier::external_body]
fn mul_256(a: U256, b: U256) -> (r: Option<U256>)
    ensures
        a@ * b@ < modulus() ==> r is Some && r->0@ == a@ * b@,
        a@ * b@ >= modulus() ==> r is None,
{
    let x = alloy_primitives::U256::from_limbs([a.limb0, a.limb1, a.limb2, a.limb3]);
    let y = alloy_primitives::U256::from_limbs([b.limb0, b.limb1, b.limb2, b.limb3]);
    match x.checked_mul(y) {
        Some(v) => {
            let limbs = v.into_limbs();
            Some(U256 { limb0: limbs[0], limb1: limbs[1], limb2: limbs[2], limb3: limbs[3] })
        },
        None => None,
    }
}

/// Trusted: `Uint::checked_div` of ruint, reached as `alloy_primitives::U256`.
/// It gives `None` for a zero divisor and the quotient rounded down otherwise.
#[verifier::external_body]
fn div_256(a: U256, b: U256) -> (r: Option<U256>)
    ensures
        b@ != 0 ==> r is Some && r->0@ == a@ / b@,
        b@ == 0 ==> r is None,
{
    let x = alloy_primitives::U256::from_limbs([a.limb0, a.limb1, a.limb2, a.limb3]);
    let y = alloy_primitives::U256::from_limbs([b.limb0, b.limb1, b.limb2, b.limb3]);
    match x.checked_div(y) {
        Some(v) => {
            let limbs = v.into_limbs();
            Some(U256 { limb0: limbs[0], limb1: limbs[1], limb2: limbs[2], limb3: limbs[3] })
        },
        None => None,
    }
}

} // verus!
