//! One pool: its stored record, what the record stands for, and the four
//! steps that change it. Each step is a function from the record, and where
//! it matters from what the caller holds in the pool, to the new record and
//! a receipt; it reads and writes nothing else.

use crate::address::{all_zero, Address, B256};
use crate::errors::StylusSwapError;
use crate::identity::zeros;
use crate::math::{
    compute_liquidity_amounts, compute_minted_liquidity, compute_swap_output, compute_withdrawal_amounts,
    lemma_swap_product_kept, lemma_swap_within_reserve, lemma_withdrawal_within_reserves, liquidity_amounts, minted_liquidity, swap_output,
    withdrawal_amounts,
};
use crate::uint256::{modulus, U256};
use vstd::prelude::*;

verus! {

/// A pool as it is stored.
#[derive(Clone, Copy, Debug, PartialEq, Eq)]
pub struct Pool {
    pub id: B256,
    pub token0: Address,
    pub token1: Address,
    pub fee: u32,
    pub liquidity: U256,
    pub balance0: U256,
    pub balance1: U256,
}

/// What a pool holds, as numbers and byte strings.
pub struct PoolState {
    pub token0: Seq<u8>,
    pub token1: Seq<u8>,
    pub fee: u32,
    pub liquidity: nat,
    pub balance0: nat,
    pub balance1: nat,
}

impl View for Pool {
    type V = PoolState;

    open spec fn view(&self) -> PoolState {
        PoolState {
            token0: self.token0@,
            token1: self.token1@,
            fee: self.fee,
            liquidity: self.liquidity@,
            balance0: self.balance0@,
            balance1: self.balance1@,
        }
    }
}

impl PoolState {
    /// What is read under a key at which nothing was ever stored.
    pub open spec fn vacant() -> PoolState {
        PoolState { token0: zeros(20), token1: zeros(20), fee: 0, liquidity: 0, balance0: 0, balance1: 0 }
    }

    /// A pool is there once one of its assets is not the zero identifier.
    pub open spec fn is_open(self) -> bool {
        !all_zero(self.token0) || !all_zero(self.token1)
    }
}

/// A pool was created.
#[derive(Clone, Copy, Debug, PartialEq, Eq)]
pub struct PoolCreated {
    pub pool_id: B256,
    pub token0: Address,
    pub token1: Address,
    pub fee: u32,
}

/// Liquidity was minted: what the pool gained, and what is to be moved from
/// the owner into the pool.
#[derive(Clone, Copy, Debug, PartialEq, Eq)]
pub struct LiquidityMinted {
    pub pool_id: B256,
    pub owner: Address,
    pub liquidity: U256,
    pub token0: Address,
    pub token1: Address,
    pub amount0: U256,
    pub amount1: U256,
}

/// Liquidity was burned: what the pool lost, and what is to be moved from the
/// pool to the owner.
#[derive(Clone, Copy, Debug, PartialEq, Eq)]
pub struct LiquidityBurned {
    pub pool_id: B256,
    pub owner: Address,
    pub liquidity: U256,
    pub token0: Address,
    pub token1: Address,
    pub amount0: U256,
    pub amount1: U256,
}

/// A swap was made: what is to be moved from the user into the pool, and
/// what from the pool to the user.
#[derive(Clone, Copy, Debug, PartialEq, Eq)]
pub struct Swap {
    pub pool_id: B256,
    pub user: Address,
    pub input_token: Address,
    pub output_token: Address,
    pub input_amount: U256,
    pub output_amount_after_fees: U256,
    pub fees: U256,
    pub zero_for_one: bool,
}

/// The pool that a creation stores: the two assets, the fee, and nothing else.
pub open spec fn created(token0: Address, token1: Address, fee: u32) -> PoolState {
    PoolState { token0: token0@, token1: token1@, fee: fee, liquidity: 0, balance0: 0, balance1: 0 }
}

/// What a deposit leaves behind and moves.
pub struct Deposit {
    /// The pool after the deposit.
    pub pool: PoolState,
    /// The depositor's liquidity after the deposit.
    pub position: nat,
    /// What the pool takes of the first asset.
    pub amount0: nat,
    /// What the pool takes of the second asset.
    pub amount1: nat,
    /// The liquidity that the pool gains.
    pub minted: nat,
}

/// A deposit into `pool` by an owner who holds `position` there. The pool
/// gains the accepted amounts and the minted liquidity; the owner gains what
/// the deposit is credited with. The first deposit is the one that finds the
/// pool without liquidity.
pub open spec fn deposit(
    pool: PoolState,
    position: nat,
    pool_id: B256,
    desired0: nat,
    desired1: nat,
    min0: nat,
    min1: nat,
) -> Result<Deposit, StylusSwapError> {
    if !pool.is_open() {
        Err(StylusSwapError::PoolDoesNotExist(pool_id))
    } else {
        match liquidity_amounts(desired0, desired1, min0, min1, pool.balance0, pool.balance1) {
            Err(e) => Err(e),
            Ok(amounts) => match minted_liquidity(
                amounts.0,
                amounts.1,
                pool.balance0,
                pool.balance1,
                pool.liquidity,
                pool.liquidity == 0,
            ) {
                Err(e) => Err(e),
                Ok(minted) => if pool.liquidity + minted.0 >= modulus() || pool.balance0 + amounts.0
                    >= modulus() || pool.balance1 + amounts.1 >= modulus() || position + minted.1
                    >= modulus() {
                    Err(StylusSwapError::ArithmeticFault)
                } else {
                    Ok(
                        Deposit {
                            pool: PoolState {
                                liquidity: pool.liquidity + minted.0,
                                balance0: pool.balance0 + amounts.0,
                                balance1: pool.balance1 + amounts.1,
                                ..pool
                            },
                            position: position + minted.1,
                            amount0: amounts.0,
                            amount1: amounts.1,
                            minted: minted.0,
                        },
                    )
                },
            },
        }
    }
}

/// What a withdrawal leaves behind and moves.
pub struct Withdrawal {
    /// The pool after the withdrawal.
    pub pool: PoolState,
    /// The owner's liquidity after the withdrawal.
    pub position: nat,
    /// What the pool pays of the first asset.
    pub amount0: nat,
    /// What the pool pays of the second asset.
    pub amount1: nat,
}

/// A withdrawal of `liquidity` from `pool` by an owner who holds `position`
/// there. The owner cannot take out more than the position holds; the pool
/// pays the same share of each reserve that `liquidity` is of its total.
pub open spec fn withdrawal(pool: PoolState, position: nat, pool_id: B256, liquidity: nat) -> Result<
    Withdrawal,
    StylusSwapError,
> {
    if !pool.is_open() {
        Err(StylusSwapError::PoolDoesNotExist(pool_id))
    } else if liquidity > position {
        Err(StylusSwapError::InsufficientLiquidityOwned)
    } else {
        match withdrawal_amounts(pool.balance0, pool.balance1, liquidity, pool.liquidity) {
            Err(e) => Err(e),
            Ok(amounts) => if liquidity > pool.liquidity {
                Err(StylusSwapError::ArithmeticFault)
            } else {
                Ok(
                    Withdrawal {
                        pool: PoolState {
                            liquidity: (pool.liquidity - liquidity) as nat,
                            balance0: (pool.balance0 - amounts.0) as nat,
                            balance1: (pool.balance1 - amounts.1) as nat,
                            ..pool
                        },
                        position: (position - liquidity) as nat,
                        amount0: amounts.0,
                        amount1: amounts.1,
                    },
                )
            },
        }
    }
}

/// What a swap leaves behind and moves.
pub struct Exchange {
    /// The pool after the swap.
    pub pool: PoolState,
    /// What the pool pays out, the fee taken off.
    pub paid: nat,
    /// The fee, which stays in the pool.
    pub fee: nat,
}

/// A swap of `amount_in` into `pool`, of the first asset for the second where
/// `zero_for_one` and the other way round where not. It is refused where it
/// would pay less than `min_out`.
pub open spec fn exchange(pool: PoolState, pool_id: B256, amount_in: nat, min_out: nat, zero_for_one: bool) -> Result<
    Exchange,
    StylusSwapError,
> {
    if amount_in == 0 {
        Err(StylusSwapError::InsufficientAmount)
    } else if !pool.is_open() {
        Err(StylusSwapError::PoolDoesNotExist(pool_id))
    } else {
        let reserve_in = if zero_for_one { pool.balance0 } else { pool.balance1 };
        let reserve_out = if zero_for_one { pool.balance1 } else { pool.balance0 };
        match swap_output(reserve_in, reserve_out, amount_in, pool.fee as nat) {
            Err(e) => Err(e),
            Ok(output) => if output.0 < min_out {
                Err(StylusSwapError::TooMuchSlippage)
            } else {
                let new_in = reserve_in + amount_in;
                let new_out = (reserve_out - output.0) as nat;
                Ok(
                    Exchange {
                        pool: PoolState {
                            balance0: if zero_for_one { new_in } else { new_out },
                            balance1: if zero_for_one { new_out } else { new_in },
                            ..pool
                        },
                        paid: output.0,
                        fee: output.1,
                    },
                )
            },
        }
    }
}

/// The receipt of a deposit by `owner` into the pool under `pool_id`.
pub open spec fn minted_is(receipt: LiquidityMinted, pool_id: B256, owner: Address, done: Deposit) -> bool {
    &&& receipt.pool_id == pool_id
    &&& receipt.owner == owner
    &&& receipt.liquidity@ == done.minted
    &&& receipt.token0@ == done.pool.token0
    &&& receipt.token1@ == done.pool.token1
    &&& receipt.amount0@ == done.amount0
    &&& receipt.amount1@ == done.amount1
}

/// The receipt of a withdrawal of `liquidity` by `owner` from the pool under
/// `pool_id`.
pub open spec fn burned_is(
    receipt: LiquidityBurned,
    pool_id: B256,
    owner: Address,
    liquidity: U256,
    done: Withdrawal,
) -> bool {
    &&& receipt.pool_id == pool_id
    &&& receipt.owner == owner
    &&& receipt.liquidity == liquidity
    &&& receipt.token0@ == done.pool.token0
    &&& receipt.token1@ == done.pool.token1
    &&& receipt.amount0@ == done.amount0
    &&& receipt.amount1@ == done.amount1
}

/// The receipt of a swap of `input_amount` by `user` in the pool under
/// `pool_id`.
pub open spec fn swap_is(
    receipt: Swap,
    pool_id: B256,
    user: Address,
    input_amount: U256,
    zero_for_one: bool,
    done: Exchange,
) -> bool {
    &&& receipt.pool_id == pool_id
    &&& receipt.user == user
    &&& receipt.input_token@ == if zero_for_one { done.pool.token0 } else { done.pool.token1 }
    &&& receipt.output_token@ == if zero_for_one { done.pool.token1 } else { done.pool.token0 }
    &&& receipt.input_amount == input_amount
    &&& receipt.output_amount_after_fees@ == done.paid
    &&& receipt.fees@ == done.fee
    &&& receipt.zero_for_one == zero_for_one
}

impl Pool {
    /// The record that is read under `id` where nothing was stored.
    pub fn vacant(id: B256) -> (r: Pool)
        ensures
            r.id == id,
            r@ == PoolState::vacant(),
    {
        let nobody = Address::zero();
        assert(nobody@ =~= zeros(20));
        Pool {
            id,
            token0: nobody,
            token1: nobody,
            fee: 0,
            liquidity: U256::zero(),
            balance0: U256::zero(),
            balance1: U256::zero(),
        }
    }

    /// Whether a pool is there: one of its assets is not the zero identifier.
    pub fn is_open(&self) -> (r: bool)
        ensures
            r == self@.is_open(),
    {
        !self.token0.is_zero() || !self.token1.is_zero()
    }

    /// Creates the pool of `token0` and `token1` at `fee` under the key of
    /// this record, empty. It is refused where this record is an open pool.
    pub fn create_pool(self, token0: Address, token1: Address, fee: u32) -> (r: Result<
        (Pool, PoolCreated),
        StylusSwapError,
    >)
        ensures
            self@.is_open() ==> r == Err::<(Pool, PoolCreated), StylusSwapError>(
                StylusSwapError::PoolAlreadyExists(self.id),
            ),
            !self@.is_open() ==> r is Ok && r->Ok_0.0.id == self.id && r->Ok_0.0@ == created(token0, token1, fee)
                && r->Ok_0.1 == (PoolCreated { pool_id: self.id, token0, token1, fee }),
    {
        if self.is_open() {
            return Err(StylusSwapError::PoolAlreadyExists(self.id));
        }
        let record = Pool {
            id: self.id,
            token0,
            token1,
            fee,
            liquidity: U256::zero(),
            balance0: U256::zero(),
            balance1: U256::zero(),
        };
        Ok((record, PoolCreated { pool_id: self.id, token0, token1, fee }))
    }

    /// Deposits into this pool for `caller`, who holds `held` in it: takes
    /// the amounts that match the reserves, mints liquidity to the pool and
    /// credits the caller. Gives the pool and the caller's liquidity after
    /// the deposit.
    pub fn add_liquidity(
        self,
        held: U256,
        caller: Address,
        amount_0_desired: U256,
        amount_1_desired: U256,
        amount_0_min: U256,
        amount_1_min: U256,
    ) -> (r: Result<(Pool, U256, LiquidityMinted), StylusSwapError>)
        ensures
            match deposit(
                self@,
                held@,
                self.id,
                amount_0_desired@,
                amount_1_desired@,
                amount_0_min@,
                amount_1_min@,
            ) {
                Ok(done) => {
                    &&& r is Ok
                    &&& r->Ok_0.0.id == self.id
                    &&& r->Ok_0.0@ == done.pool
                    &&& r->Ok_0.1@ == done.position
                    &&& minted_is(r->Ok_0.2, self.id, caller, done)
                },
                Err(e) => r == Err::<(Pool, U256, LiquidityMinted), StylusSwapError>(e),
            },
    {
        if !self.is_open() {
            return Err(StylusSwapError::PoolDoesNotExist(self.id));
        }
        let (amount0, amount1) = match compute_liquidity_amounts(
            amount_0_desired,
            amount_1_desired,
            amount_0_min,
            amount_1_min,
            self.balance0,
            self.balance1,
        ) {
            Ok(amounts) => amounts,
            Err(e) => { return Err(e); },
        };
        let (minted, credited) = match compute_minted_liquidity(
            amount0,
            amount1,
            self.balance0,
            self.balance1,
            self.liquidity,
            self.liquidity.is_zero(),
        ) {
            Ok(minted) => minted,
            Err(e) => { return Err(e); },
        };
        let liquidity = match self.liquidity.checked_add(minted) {
            Some(v) => v,
            None => { return Err(StylusSwapError::ArithmeticFault); },
        };
        let balance0 = match self.balance0.checked_add(amount0) {
            Some(v) => v,
            None => { return Err(StylusSwapError::ArithmeticFault); },
        };
        let balance1 = match self.balance1.checked_add(amount1) {
            Some(v) => v,
            None => { return Err(StylusSwapError::ArithmeticFault); },
        };
        let position = match held.checked_add(credited) {
            Some(v) => v,
            None => { return Err(StylusSwapError::ArithmeticFault); },
        };
        Ok(
            (
                Pool { liquidity, balance0, balance1, ..self },
                position,
                LiquidityMinted {
                    pool_id: self.id,
                    owner: caller,
                    liquidity: minted,
                    token0: self.token0,
                    token1: self.token1,
                    amount0,
                    amount1,
                },
            ),
        )
    }

    /// Withdraws `liquidity_to_remove` of the `held` that `caller` has in this
    /// pool: the pool pays the same share of each reserve and loses that
    /// liquidity. Gives the pool and the caller's liquidity after the
    /// withdrawal.
    pub fn remove_liquidity(self, held: U256, caller: Address, liquidity_to_remove: U256) -> (r: Result<
        (Pool, U256, LiquidityBurned),
        StylusSwapError,
    >)
        ensures
            match withdrawal(self@, held@, self.id, liquidity_to_remove@) {
                Ok(done) => {
                    &&& r is Ok
                    &&& r->Ok_0.0.id == self.id
                    &&& r->Ok_0.0@ == done.pool
                    &&& r->Ok_0.1@ == done.position
                    &&& burned_is(r->Ok_0.2, self.id, caller, liquidity_to_remove, done)
                },
                Err(e) => r == Err::<(Pool, U256, LiquidityBurned), StylusSwapError>(e),
            },
    {
        if !self.is_open() {
            return Err(StylusSwapError::PoolDoesNotExist(self.id));
        }
        let position = match held.checked_sub(liquidity_to_remove) {
            Some(v) => v,
            None => { return Err(StylusSwapError::InsufficientLiquidityOwned); },
        };
        let (amount0, amount1) = match compute_withdrawal_amounts(
            self.balance0,
            self.balance1,
            liquidity_to_remove,
            self.liquidity,
        ) {
            Ok(amounts) => amounts,
            Err(e) => { return Err(e); },
        };
        let liquidity = match self.liquidity.checked_sub(liquidity_to_remove) {
            Some(v) => v,
            None => { return Err(StylusSwapError::ArithmeticFault); },
        };
        proof {
            lemma_withdrawal_within_reserves(
                self.balance0@,
                self.balance1@,
                liquidity_to_remove@,
                self.liquidity@,
            );
        }
        let balance0 = self.balance0.checked_sub(amount0).unwrap();
        let balance1 = self.balance1.checked_sub(amount1).unwrap();
        Ok(
            (
                Pool { liquidity, balance0, balance1, ..self },
                position,
                LiquidityBurned {
                    pool_id: self.id,
                    owner: caller,
                    liquidity: liquidity_to_remove,
                    token0: self.token0,
                    token1: self.token1,
                    amount0,
                    amount1,
                },
            ),
        )
    }

    /// Swaps `input_amount` of one asset of this pool for the other, for
    /// `caller`. Gives the pool after the swap.
    pub fn swap(self, caller: Address, input_amount: U256, min_output_amount: U256, zero_for_one: bool) -> (r:
        Result<(Pool, Swap), StylusSwapError>)
        ensures
            match exchange(self@, self.id, input_amount@, min_output_amount@, zero_for_one) {
                Ok(done) => {
                    &&& r is Ok
                    &&& r->Ok_0.0.id == self.id
                    &&& r->Ok_0.0@ == done.pool
                    &&& swap_is(r->Ok_0.1, self.id, caller, input_amount, zero_for_one, done)
                },
                Err(e) => r == Err::<(Pool, Swap), StylusSwapError>(e),
            },
    {
        if input_amount.is_zero() {
            return Err(StylusSwapError::InsufficientAmount);
        }
        if !self.is_open() {
            return Err(StylusSwapError::PoolDoesNotExist(self.id));
        }
        let (input_token, output_token) = if zero_for_one {
            (self.token0, self.token1)
        } else {
            (self.token1, self.token0)
        };
        let (input_balance, output_balance) = if zero_for_one {
            (self.balance0, self.balance1)
        } else {
            (self.balance1, self.balance0)
        };
        let (paid, fees) = match compute_swap_output(input_balance, output_balance, input_amount, self.fee) {
            Ok(output) => output,
            Err(e) => { return Err(e); },
        };
        if paid.lt(min_output_amount) {
            return Err(StylusSwapError::TooMuchSlippage);
        }
        proof {
            lemma_swap_within_reserve(input_balance@, output_balance@, input_amount@, self.fee as nat);
        }
        let new_input_balance = input_balance.checked_add(input_amount).unwrap();
        let new_output_balance = output_balance.checked_sub(paid).unwrap();
        let record = if zero_for_one {
            Pool { balance0: new_input_balance, balance1: new_output_balance, ..self }
        } else {
            Pool { balance0: new_output_balance, balance1: new_input_balance, ..self }
        };
        Ok(
            (
                record,
                Swap {
                    pool_id: self.id,
                    user: caller,
                    input_token,
                    output_token,
                    input_amount,
                    output_amount_after_fees: paid,
                    fees,
                    zero_for_one,
                },
            ),
        )
    }
}

/// Across a swap that keeps a fee, or whose new input reserve divides the
/// product of the old reserves, the product of the pool's reserves does not
/// fall.
pub proof fn lemma_swap_keeps_product(
    pool: PoolState,
    pool_id: B256,
    amount_in: nat,
    min_out: nat,
    zero_for_one: bool,
)
    requires
        exchange(pool, pool_id, amount_in, min_out, zero_for_one) is Ok,
        exchange(pool, pool_id, amount_in, min_out, zero_for_one)->Ok_0.fee > 0 || (pool.balance0
            * pool.balance1) % ((if zero_for_one {
            pool.balance0
        } else {
            pool.balance1
        }) + amount_in) == 0,
    ensures
        exchange(pool, pool_id, amount_in, min_out, zero_for_one)->Ok_0.pool.balance0 * exchange(
            pool,
            pool_id,
            amount_in,
            min_out,
            zero_for_one,
        )->Ok_0.pool.balance1 >= pool.balance0 * pool.balance1,
{
    let done = exchange(pool, pool_id, amount_in, min_out, zero_for_one)->Ok_0;
    let reserve_in = if zero_for_one { pool.balance0 } else { pool.balance1 };
    let reserve_out = if zero_for_one { pool.balance1 } else { pool.balance0 };
    assert(reserve_in * reserve_out == pool.balance0 * pool.balance1) by (nonlinear_arith)
        requires
            (reserve_in == pool.balance0 && reserve_out == pool.balance1) || (reserve_in == pool.balance1
                && reserve_out == pool.balance0),
    ;
    lemma_swap_product_kept(reserve_in, reserve_out, amount_in, pool.fee as nat);
    lemma_swap_within_reserve(reserve_in, reserve_out, amount_in, pool.fee as nat);
    let new_in = reserve_in + amount_in;
    let new_out = (reserve_out - done.paid) as nat;
    assert(done.pool.balance0 * done.pool.balance1 == new_in * new_out) by (nonlinear_arith)
        requires
            (done.pool.balance0 == new_in && done.pool.balance1 == new_out) || (done.pool.balance0 == new_out
                && done.pool.balance1 == new_in),
    ;
}

} // verus!
