//! The arithmetic of a pool: how much of a deposit is accepted, how much
//! liquidity it mints, what a withdrawal pays out, and what a swap returns
//! under the constant-product rule. Every function says over natural numbers
//! what it returns; a value that leaves 256 bits is an `ArithmeticFault`.

use crate::errors::StylusSwapError;
use crate::uint256::{modulus, U256};
use vstd::prelude::*;

verus! {

/// Liquidity withheld for good from a pool's first depositor.
pub const MINIMUM_LIQUIDITY: u64 = 1000;

/// The scale of a fee rate: a rate of 30 takes 30 parts in 10000.
pub const FEE_SCALE: u64 = 10_000;

/// `r` is the square root of `x`, rounded down.
pub open spec fn is_floor_sqrt(x: nat, r: nat) -> bool {
    r * r <= x && x < (r + 1) * (r + 1)
}

/// The square root of `x`, rounded down.
pub open spec fn floor_sqrt(x: nat) -> nat {
    choose|r: nat| is_floor_sqrt(x, r)
}

/// `a * b / d` rounded down, where the product fits in 256 bits and `d` is
/// not zero.
pub open spec fn mul_div(a: nat, b: nat, d: nat) -> Option<nat> {
    if a * b >= modulus() || d == 0 {
        None
    } else {
        Some(a * b / d)
    }
}

/// The amounts of a deposit that a pool with the given reserves accepts. An
/// empty pool takes what is offered. Otherwise the first asset is taken in
/// full with the matching amount of the second, if that is within what is
/// offered and not under `min1`; else the second is taken in full with the
/// matching amount of the first, unless that falls short of what is offered.
pub open spec fn liquidity_amounts(
    desired0: nat,
    desired1: nat,
    min0: nat,
    min1: nat,
    reserve0: nat,
    reserve1: nat,
) -> Result<(nat, nat), StylusSwapError> {
    if reserve0 == 0 && reserve1 == 0 {
        Ok((desired0, desired1))
    } else {
        match mul_div(desired0, reserve1, reserve0) {
            None => Err(StylusSwapError::ArithmeticFault),
            Some(optimal1) => if optimal1 <= desired1 {
                if optimal1 < min1 {
                    Err(StylusSwapError::InsufficientAmount)
                } else {
                    Ok((desired0, optimal1))
                }
            } else {
                match mul_div(desired1, reserve0, reserve1) {
                    None => Err(StylusSwapError::ArithmeticFault),
                    Some(optimal0) => if optimal0 < desired0 {
                        Err(StylusSwapError::InsufficientAmount)
                    } else {
                        Ok((optimal0, desired1))
                    },
                }
            },
        }
    }
}

/// The liquidity that a deposit mints: first what the pool gains, then what
/// the depositor is credited with. A first deposit mints the square root of
/// the product of its amounts, of which the depositor gets all but the
/// bootstrap lock. A later one mints the lesser of the two shares that its
/// amounts are of the reserves.
pub open spec fn minted_liquidity(
    amount0: nat,
    amount1: nat,
    reserve0: nat,
    reserve1: nat,
    total_liquidity: nat,
    is_first_deposit: bool,
) -> Result<(nat, nat), StylusSwapError> {
    if is_first_deposit {
        if amount0 * amount1 >= modulus() {
            Err(StylusSwapError::ArithmeticFault)
        } else {
            let root = floor_sqrt(amount0 * amount1);
            if root <= MINIMUM_LIQUIDITY {
                Err(StylusSwapError::InsufficientLiquidityMinted)
            } else {
                Ok((root, (root - MINIMUM_LIQUIDITY) as nat))
            }
        }
    } else {
        match (mul_div(amount0, total_liquidity, reserve0), mul_div(amount1, total_liquidity, reserve1)) {
            (Some(share0), Some(share1)) => {
                let minted = if share0 < share1 { share0 } else { share1 };
                if minted == 0 {
                    Err(StylusSwapError::InsufficientLiquidityMinted)
                } else {
                    Ok((minted, minted))
                }
            },
            _ => Err(StylusSwapError::ArithmeticFault),
        }
    }
}

/// What a withdrawal of `liquidity` pays out of each reserve: the same share
/// of each that `liquidity` is of the total, rounded down. A withdrawal that
/// would pay nothing of one asset is refused.
pub open spec fn withdrawal_amounts(
    reserve0: nat,
    reserve1: nat,
    liquidity: nat,
    total_liquidity: nat,
) -> Result<(nat, nat), StylusSwapError> {
    match (mul_div(reserve0, liquidity, total_liquidity), mul_div(reserve1, liquidity, total_liquidity)) {
        (Some(amount0), Some(amount1)) => if amount0 == 0 || amount1 == 0 {
            Err(StylusSwapError::InsufficientLiquidityOwned)
        } else {
            Ok((amount0, amount1))
        },
        _ => Err(StylusSwapError::ArithmeticFault),
    }
}

/// What a swap returns: first the amount paid out, then the fee kept. The
/// amount before the fee is what leaves the product of the reserves where it
/// was; the fee is its `fee_rate` parts in 10000 and stays in the pool.
pub open spec fn swap_output(reserve_in: nat, reserve_out: nat, amount_in: nat, fee_rate: nat) -> Result<
    (nat, nat),
    StylusSwapError,
> {
    let product = reserve_in * reserve_out;
    let new_reserve_in = reserve_in + amount_in;
    if product >= modulus() || new_reserve_in >= modulus() || new_reserve_in == 0 {
        Err(StylusSwapError::ArithmeticFault)
    } else {
        let gross = (reserve_out - product / new_reserve_in) as nat;
        match mul_div(gross, fee_rate, FEE_SCALE as nat) {
            None => Err(StylusSwapError::ArithmeticFault),
            Some(fee) => if fee > gross {
                Err(StylusSwapError::ArithmeticFault)
            } else {
                Ok(((gross - fee) as nat, fee))
            },
        }
    }
}

/// A pair of 256-bit values, or an error, is what `expected` says.
pub open spec fn pair_is(
    got: Result<(U256, U256), StylusSwapError>,
    expected: Result<(nat, nat), StylusSwapError>,
) -> bool {
    match expected {
        Ok(pair) => got is Ok && got->Ok_0.0@ == pair.0 && got->Ok_0.1@ == pair.1,
        Err(e) => got == Err::<(U256, U256), StylusSwapError>(e),
    }
}

/// No two numbers are the rounded-down square root of one number.
pub proof fn lemma_floor_sqrt_unique(x: nat, r: nat)
    requires
        is_floor_sqrt(x, r),
    ensures
        floor_sqrt(x) == r,
{
    let s = floor_sqrt(x);
    assert(is_floor_sqrt(x, s));
    assert(s == r) by (nonlinear_arith)
        requires
            r * r <= x,
            x < (r + 1) * (r + 1),
            s * s <= x,
            x < (s + 1) * (s + 1),
    ;
}

/// The mean of `y` and `x / y`, rounded down, is not under the square root of `x`.
proof fn lemma_newton_step(x: nat, y: nat, z: nat)
    requires
        y > 0,
        z == (x / y + y) / 2,
    ensures
        x < (z + 1) * (z + 1),
{
    let q = x / y;
    assert(x < (q + 1) * y) by (nonlinear_arith)
        requires
            y > 0,
            q == x / y,
    ;
    assert(q + 1 + y <= 2 * (z + 1));
    assert((q + 1) * y <= (z + 1) * (z + 1)) by (nonlinear_arith)
        requires
            q + 1 + y <= 2 * (z + 1),
    {
        assert(4 * ((q + 1) * y) <= (q + 1 + y) * (q + 1 + y));
        assert((q + 1 + y) * (q + 1 + y) <= (2 * (z + 1)) * (2 * (z + 1)));
    }
}

/// A number at which the iteration stops is not over the square root of `x`.
proof fn lemma_newton_stop(x: nat, y: nat)
    requires
        y > 0,
        (x / y + y) / 2 >= y,
    ensures
        y * y <= x,
{
    let q = x / y;
    assert(q >= y);
    assert(y * y <= x) by (nonlinear_arith)
        requires
            y > 0,
            q == x / y,
            q >= y,
    {
        assert(q * y <= x);
        assert(y * y <= q * y);
    }
}

/// The mean of two values, rounded down, taken without forming their sum.
fn mean(a: U256, b: U256) -> (r: U256)
    ensures
        r@ == (a@ + b@) / 2,
{
    let (low, high) = if a.lt(b) { (a, b) } else { (b, a) };
    let spread = high.checked_sub(low).unwrap();
    let half = spread.checked_div(U256::from_u64(2)).unwrap();
    low.checked_add(half).unwrap()
}

/// The lesser of two values.
pub fn min(x: U256, y: U256) -> (r: U256)
    ensures
        r == if x@ < y@ { x } else { y },
{
    if x.lt(y) {
        x
    } else {
        y
    }
}

/// The square root of `x`, rounded down, by Newton's iteration from `x`
/// itself and half of `x + 1`.
pub fn integer_sqrt(x: U256) -> (y: U256)
    ensures
        y@ == floor_sqrt(x@),
        is_floor_sqrt(x@, y@),
{
    let half = x.checked_div(U256::from_u64(2)).unwrap();
    let mut z = x.checked_sub(half).unwrap();
    let mut y = x;
    let ghost mut started = false;
    proof {
        assert(x@ < (z@ + 1) * (z@ + 1)) by (nonlinear_arith)
            requires
                2 * z@ >= x@,
        ;
        assert(x@ < (y@ + 1) * (y@ + 1)) by (nonlinear_arith)
            requires
                y@ == x@,
        ;
    }
    while z.lt(y)
        invariant
            y@ <= x@,
            x@ < (y@ + 1) * (y@ + 1),
            x@ < (z@ + 1) * (z@ + 1),
            !started ==> y@ == x@ && z@ == x@ - x@ / 2,
            started ==> y@ > 0 && z@ == (x@ / y@ + y@) / 2,
        decreases y@,
    {
        proof {
            if z@ == 0 {
                assert((z@ + 1) * (z@ + 1) == 1) by (nonlinear_arith)
                    requires
                        z@ == 0,
                ;
            }
        }
        y = z;
        let quotient = x.checked_div(z).unwrap();
        z = mean(quotient, z);
        proof {
            started = true;
            lemma_newton_step(x@, y@, z@);
        }
    }
    proof {
        if started {
            lemma_newton_stop(x@, y@);
        } else {
            assert(y@ * y@ <= x@) by (nonlinear_arith)
                requires
                    y@ <= 1,
                    y@ == x@,
            ;
        }
        lemma_floor_sqrt_unique(x@, y@);
    }
    y
}

/// `a * b / d` rounded down, or `None` where the product does not fit in 256
/// bits or `d` is zero.
fn mul_div_256(a: U256, b: U256, d: U256) -> (r: Option<U256>)
    ensures
        match mul_div(a@, b@, d@) {
            Some(v) => r is Some && r->0@ == v,
            None => r is None,
        },
{
    match a.checked_mul(b) {
        Some(product) => product.checked_div(d),
        None => None,
    }
}

/// The amounts of a deposit that a pool with the given reserves accepts.
pub fn compute_liquidity_amounts(
    desired0: U256,
    desired1: U256,
    min0: U256,
    min1: U256,
    reserve0: U256,
    reserve1: U256,
) -> (r: Result<(U256, U256), StylusSwapError>)
    ensures
        pair_is(r, liquidity_amounts(desired0@, desired1@, min0@, min1@, reserve0@, reserve1@)),
{
    if reserve0.is_zero() && reserve1.is_zero() {
        return Ok((desired0, desired1));
    }
    let optimal1 = match mul_div_256(desired0, reserve1, reserve0) {
        Some(v) => v,
        None => { return Err(StylusSwapError::ArithmeticFault); },
    };
    if optimal1.le(desired1) {
        if optimal1.lt(min1) {
            return Err(StylusSwapError::InsufficientAmount);
        }
        return Ok((desired0, optimal1));
    }
    let optimal0 = match mul_div_256(desired1, reserve0, reserve1) {
        Some(v) => v,
        None => { return Err(StylusSwapError::ArithmeticFault); },
    };
    if optimal0.lt(desired0) {
        return Err(StylusSwapError::InsufficientAmount);
    }
    Ok((optimal0, desired1))
}

/// The liquidity that a deposit mints: first what the pool gains, then what
/// the depositor is credited with.
pub fn compute_minted_liquidity(
    amount0: U256,
    amount1: U256,
    reserve0: U256,
    reserve1: U256,
    total_liquidity: U256,
    is_first_deposit: bool,
) -> (r: Result<(U256, U256), StylusSwapError>)
    ensures
        pair_is(
            r,
            minted_liquidity(amount0@, amount1@, reserve0@, reserve1@, total_liquidity@, is_first_deposit),
        ),
{
    if is_first_deposit {
        let product = match amount0.checked_mul(amount1) {
            Some(v) => v,
            None => { return Err(StylusSwapError::ArithmeticFault); },
        };
        let root = integer_sqrt(product);
        match root.checked_sub(U256::from_u64(MINIMUM_LIQUIDITY)) {
            Some(credited) => if credited.is_zero() {
                Err(StylusSwapError::InsufficientLiquidityMinted)
            } else {
                Ok((root, credited))
            },
            None => Err(StylusSwapError::InsufficientLiquidityMinted),
        }
    } else {
        let share0 = match mul_div_256(amount0, total_liquidity, reserve0) {
            Some(v) => v,
            None => { return Err(StylusSwapError::ArithmeticFault); },
        };
        let share1 = match mul_div_256(amount1, total_liquidity, reserve1) {
            Some(v) => v,
            None => { return Err(StylusSwapError::ArithmeticFault); },
        };
        let minted = min(share0, share1);
        if minted.is_zero() {
            Err(StylusSwapError::InsufficientLiquidityMinted)
        } else {
            Ok((minted, minted))
        }
    }
}

/// What a withdrawal of `liquidity` pays out of each reserve.
pub fn compute_withdrawal_amounts(
    reserve0: U256,
    reserve1: U256,
    liquidity: U256,
    total_liquidity: U256,
) -> (r: Result<(U256, U256), StylusSwapError>)
    ensures
        pair_is(r, withdrawal_amounts(reserve0@, reserve1@, liquidity@, total_liquidity@)),
{
    let amount0 = match mul_div_256(reserve0, liquidity, total_liquidity) {
        Some(v) => v,
        None => { return Err(StylusSwapError::ArithmeticFault); },
    };
    let amount1 = match mul_div_256(reserve1, liquidity, total_liquidity) {
        Some(v) => v,
        None => { return Err(StylusSwapError::ArithmeticFault); },
    };
    if amount0.is_zero() || amount1.is_zero() {
        return Err(StylusSwapError::InsufficientLiquidityOwned);
    }
    Ok((amount0, amount1))
}

/// What stays in the output reserve under the constant-product rule is not
/// more than what was there.
proof fn lemma_retained_bound(reserve_in: nat, reserve_out: nat, amount_in: nat)
    requires
        reserve_in + amount_in > 0,
    ensures
        (reserve_in * reserve_out) / (reserve_in + amount_in) <= reserve_out,
{
    let n = reserve_in + amount_in;
    let k = reserve_in * reserve_out;
    assert(k / n <= reserve_out) by (nonlinear_arith)
        requires
            n > 0,
            n >= reserve_in,
            k == reserve_in * reserve_out,
    {
        assert(k <= n * reserve_out);
        assert((n * reserve_out) / n == reserve_out);
        if k / n > reserve_out {
            assert(n * (k / n) <= k);
            assert(n * (reserve_out + 1) <= n * (k / n));
        }
    }
}

/// What a swap returns: first the amount paid out, then the fee kept.
pub fn compute_swap_output(reserve_in: U256, reserve_out: U256, amount_in: U256, fee_rate: u32) -> (r:
    Result<(U256, U256), StylusSwapError>)
    ensures
        pair_is(r, swap_output(reserve_in@, reserve_out@, amount_in@, fee_rate as nat)),
{
    let product = match reserve_in.checked_mul(reserve_out) {
        Some(v) => v,
        None => { return Err(StylusSwapError::ArithmeticFault); },
    };
    let new_reserve_in = match reserve_in.checked_add(amount_in) {
        Some(v) => v,
        None => { return Err(StylusSwapError::ArithmeticFault); },
    };
    let retained = match product.checked_div(new_reserve_in) {
        Some(v) => v,
        None => { return Err(StylusSwapError::ArithmeticFault); },
    };
    proof {
        lemma_retained_bound(reserve_in@, reserve_out@, amount_in@);
    }
    let gross = reserve_out.checked_sub(retained).unwrap();
    let fee = match mul_div_256(gross, U256::from_u64(fee_rate as u64), U256::from_u64(FEE_SCALE)) {
        Some(v) => v,
        None => { return Err(StylusSwapError::ArithmeticFault); },
    };
    match gross.checked_sub(fee) {
        Some(paid) => Ok((paid, fee)),
        None => Err(StylusSwapError::ArithmeticFault),
    }
}

/// A withdrawal of no more than all liquidity pays out no more of either
/// asset than the pool holds.
pub proof fn lemma_withdrawal_within_reserves(reserve0: nat, reserve1: nat, liquidity: nat, total_liquidity: nat)
    requires
        liquidity <= total_liquidity,
        withdrawal_amounts(reserve0, reserve1, liquidity, total_liquidity) is Ok,
    ensures
        withdrawal_amounts(reserve0, reserve1, liquidity, total_liquidity)->Ok_0.0 <= reserve0,
        withdrawal_amounts(reserve0, reserve1, liquidity, total_liquidity)->Ok_0.1 <= reserve1,
        liquidity > 0,
{
    lemma_share_bound(reserve0, liquidity, total_liquidity);
    lemma_share_bound(reserve1, liquidity, total_liquidity);
    assert(reserve0 * 0 == 0) by (nonlinear_arith);
}

/// A share of no more than the whole, rounded down, is no more than the whole.
proof fn lemma_share_bound(reserve: nat, part: nat, whole: nat)
    requires
        part <= whole,
        whole > 0,
    ensures
        reserve * part / whole <= reserve,
{
    assert(reserve * part / whole <= reserve) by (nonlinear_arith)
        requires
            part <= whole,
            whole > 0,
    {
        assert(reserve * part <= reserve * whole);
        assert((reserve * whole) / whole == reserve);
        if reserve * part / whole > reserve {
            assert(whole * (reserve * part / whole) <= reserve * part);
            assert(whole * (reserve + 1) <= whole * (reserve * part / whole));
        }
    }
}

/// A swap pays out, the fee included, no more than the output reserve holds.
pub proof fn lemma_swap_within_reserve(reserve_in: nat, reserve_out: nat, amount_in: nat, fee_rate: nat)
    requires
        swap_output(reserve_in, reserve_out, amount_in, fee_rate) is Ok,
    ensures
        swap_output(reserve_in, reserve_out, amount_in, fee_rate)->Ok_0.0 + swap_output(
            reserve_in,
            reserve_out,
            amount_in,
            fee_rate,
        )->Ok_0.1 <= reserve_out,
        reserve_in + amount_in < modulus(),
{
    lemma_retained_bound(reserve_in, reserve_out, amount_in);
}

/// Across a swap that keeps a fee, or whose new input reserve divides the
/// product of the old reserves, the product of the reserves does not fall.
pub proof fn lemma_swap_product_kept(reserve_in: nat, reserve_out: nat, amount_in: nat, fee_rate: nat)
    requires
        swap_output(reserve_in, reserve_out, amount_in, fee_rate) is Ok,
        swap_output(reserve_in, reserve_out, amount_in, fee_rate)->Ok_0.1 > 0 || (reserve_in * reserve_out) % (
        reserve_in + amount_in) == 0,
    ensures
        (reserve_in + amount_in) * (reserve_out - swap_output(
            reserve_in,
            reserve_out,
            amount_in,
            fee_rate,
        )->Ok_0.0) >= reserve_in * reserve_out,
{
    let output = swap_output(reserve_in, reserve_out, amount_in, fee_rate)->Ok_0;
    let n = reserve_in + amount_in;
    let k = reserve_in * reserve_out;
    let fee = output.1;
    lemma_retained_bound(reserve_in, reserve_out, amount_in);
    assert(reserve_out - output.0 == k / n + fee);
    assert(n * (k / n + fee) >= k) by (nonlinear_arith)
        requires
            n > 0,
            fee > 0 || k % n == 0,
            k >= 0,
            fee >= 0,
    {
        assert(k == n * (k / n) + k % n);
        assert(n * (k / n + fee) == n * (k / n) + n * fee);
        if fee > 0 {
            assert(n * fee >= n);
            assert(k % n < n);
        }
    }
}

/// Across a swap that keeps no fee and whose new input reserve does not
/// divide the product of the old reserves, the product of the reserves falls.
pub proof fn lemma_swap_product_lost(reserve_in: nat, reserve_out: nat, amount_in: nat, fee_rate: nat)
    requires
        swap_output(reserve_in, reserve_out, amount_in, fee_rate) is Ok,
        swap_output(reserve_in, reserve_out, amount_in, fee_rate)->Ok_0.1 == 0,
        (reserve_in * reserve_out) % (reserve_in + amount_in) != 0,
    ensures
        (reserve_in + amount_in) * (reserve_out - swap_output(
            reserve_in,
            reserve_out,
            amount_in,
            fee_rate,
        )->Ok_0.0) < reserve_in * reserve_out,
{
    let output = swap_output(reserve_in, reserve_out, amount_in, fee_rate)->Ok_0;
    let n = reserve_in + amount_in;
    let k = reserve_in * reserve_out;
    lemma_retained_bound(reserve_in, reserve_out, amount_in);
    assert(reserve_out - output.0 == k / n);
    assert(n * (k / n) < k) by (nonlinear_arith)
        requires
            n > 0,
            k % n != 0,
            k >= 0,
    {
        assert(k == n * (k / n) + k % n);
        assert(k % n >= 0);
    }
}

} // verus!
