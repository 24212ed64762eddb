use stylus_swap::address::{Address, B256};
use stylus_swap::errors::StylusSwapError;
use stylus_swap::ledger::StylusSwap;
use stylus_swap::pool::{LiquidityBurned, LiquidityMinted, PoolCreated, Swap};
use stylus_swap::uint256::U256;

fn n(v: u64) -> U256 {
    U256::from_u64(v)
}

fn token_x() -> Address {
    Address::from_bytes([0x11; 20])
}

fn token_y() -> Address {
    Address::from_bytes([0x22; 20])
}

fn alice() -> Address {
    Address::from_bytes([0xa1; 20])
}

fn bob() -> Address {
    Address::from_bytes([0xb0; 20])
}

fn ledger_with_pool() -> (StylusSwap, B256) {
    let mut ledger = StylusSwap::new();
    let created = ledger.create_pool(token_x(), token_y(), 30).unwrap();
    (ledger, created.pool_id)
}

fn ledger_with_reserves(amount0: u64, amount1: u64) -> (StylusSwap, B256) {
    let (mut ledger, pool_id) = ledger_with_pool();
    ledger.add_liquidity(alice(), pool_id, n(amount0), n(amount1), n(0), n(0)).unwrap();
    (ledger, pool_id)
}

fn sum_and_lock(ledger: &StylusSwap, pool_id: B256, owners: &[Address]) -> U256 {
    let mut total = n(1000);
    for owner in owners {
        total = total.checked_add(ledger.get_position_liquidity(pool_id, *owner)).unwrap();
    }
    total
}

#[test]
fn a_new_pool_is_empty() {
    let mut ledger = StylusSwap::new();
    let expected_id = ledger.get_pool_id(token_x(), token_y(), 30).0;
    let created = ledger.create_pool(token_y(), token_x(), 30);
    assert_eq!(
        created,
        Ok(PoolCreated { pool_id: expected_id, token0: token_x(), token1: token_y(), fee: 30 })
    );
    let pool = ledger.get_pool(expected_id);
    assert_eq!(pool.id, expected_id);
    assert_eq!(pool.token0, token_x());
    assert_eq!(pool.token1, token_y());
    assert_eq!(pool.fee, 30);
    assert_eq!(pool.liquidity, n(0));
    assert_eq!(pool.balance0, n(0));
    assert_eq!(pool.balance1, n(0));
}

#[test]
fn a_pool_is_created_once() {
    let (mut ledger, pool_id) = ledger_with_pool();
    assert_eq!(ledger.create_pool(token_x(), token_y(), 30), Err(StylusSwapError::PoolAlreadyExists(pool_id)));
    assert_eq!(ledger.create_pool(token_y(), token_x(), 30), Err(StylusSwapError::PoolAlreadyExists(pool_id)));
    let other = ledger.create_pool(token_x(), token_y(), 31).unwrap();
    assert_ne!(other.pool_id, pool_id);
}

#[test]
fn a_refused_creation_leaves_the_pool_as_it_was() {
    let (mut ledger, pool_id) = ledger_with_reserves(1_000_000, 1_000_000);
    let before = ledger.get_pool(pool_id);
    assert!(ledger.create_pool(token_x(), token_y(), 30).is_err());
    assert_eq!(ledger.get_pool(pool_id), before);
    assert_eq!(ledger.get_position_liquidity(pool_id, alice()), n(999_000));
}

#[test]
fn a_pool_of_the_native_asset_and_a_token_is_open() {
    let mut ledger = StylusSwap::new();
    let created = ledger.create_pool(token_y(), Address::zero(), 30).unwrap();
    assert_eq!(created.token0, Address::zero());
    assert_eq!(created.token1, token_y());
    let minted = ledger.add_liquidity(alice(), created.pool_id, n(2000), n(2000), n(0), n(0)).unwrap();
    assert_eq!(minted.liquidity, n(2000));
    assert_eq!(
        ledger.create_pool(Address::zero(), token_y(), 30),
        Err(StylusSwapError::PoolAlreadyExists(created.pool_id))
    );
}

#[test]
fn a_pool_of_the_zero_identifier_twice_is_never_open() {
    let mut ledger = StylusSwap::new();
    let created = ledger.create_pool(Address::zero(), Address::zero(), 30).unwrap();
    assert_eq!(
        ledger.add_liquidity(alice(), created.pool_id, n(2000), n(2000), n(0), n(0)),
        Err(StylusSwapError::PoolDoesNotExist(created.pool_id))
    );
    assert_eq!(ledger.create_pool(Address::zero(), Address::zero(), 30), Ok(created));
}

#[test]
fn nothing_is_read_where_nothing_was_stored() {
    let ledger = StylusSwap::new();
    let nowhere = B256::from_bytes([9; 32]);
    let pool = ledger.get_pool(nowhere);
    assert_eq!(pool.id, nowhere);
    assert!(pool.token0.is_zero());
    assert!(pool.token1.is_zero());
    assert_eq!(pool.fee, 0);
    assert_eq!(pool.liquidity, n(0));
    assert_eq!(pool.balance0, n(0));
    assert_eq!(pool.balance1, n(0));
    assert_eq!(ledger.get_position_liquidity(nowhere, alice()), n(0));
}

#[test]
fn operations_on_a_missing_pool_are_refused() {
    let mut ledger = StylusSwap::new();
    let nowhere = B256::from_bytes([9; 32]);
    assert_eq!(
        ledger.add_liquidity(alice(), nowhere, n(5000), n(5000), n(0), n(0)),
        Err(StylusSwapError::PoolDoesNotExist(nowhere))
    );
    assert_eq!(ledger.remove_liquidity(alice(), nowhere, n(1)), Err(StylusSwapError::PoolDoesNotExist(nowhere)));
    assert_eq!(ledger.swap(alice(), nowhere, n(1), n(0), true), Err(StylusSwapError::PoolDoesNotExist(nowhere)));
}

#[test]
fn a_first_deposit_of_a_thousand_each_is_within_the_lock() {
    let (mut ledger, pool_id) = ledger_with_pool();
    assert_eq!(ledger.get_liquidity_amounts(n(1000), n(1000), n(0), n(0), n(0), n(0)), Ok((n(1000), n(1000))));
    assert_eq!(
        ledger.add_liquidity(alice(), pool_id, n(1000), n(1000), n(0), n(0)),
        Err(StylusSwapError::InsufficientLiquidityMinted)
    );
    let pool = ledger.get_pool(pool_id);
    assert_eq!(pool.liquidity, n(0));
    assert_eq!(pool.balance0, n(0));
    assert_eq!(pool.balance1, n(0));
    assert_eq!(ledger.get_position_liquidity(pool_id, alice()), n(0));
}

#[test]
fn a_first_deposit_of_a_million_each_credits_all_but_the_lock() {
    let (mut ledger, pool_id) = ledger_with_pool();
    let minted = ledger.add_liquidity(alice(), pool_id, n(1_000_000), n(1_000_000), n(0), n(0));
    assert_eq!(
        minted,
        Ok(LiquidityMinted {
            pool_id,
            owner: alice(),
            liquidity: n(1_000_000),
            token0: token_x(),
            token1: token_y(),
            amount0: n(1_000_000),
            amount1: n(1_000_000),
        })
    );
    assert_eq!(ledger.get_position_liquidity(pool_id, alice()), n(999_000));
    let pool = ledger.get_pool(pool_id);
    assert_eq!(pool.liquidity, n(1_000_000));
    assert_eq!(pool.balance0, n(1_000_000));
    assert_eq!(pool.balance1, n(1_000_000));
    assert_eq!(pool.liquidity, ledger.get_position_liquidity(pool_id, alice()).checked_add(n(1000)).unwrap());
}

#[test]
fn a_later_deposit_adds_the_same_to_pool_and_position() {
    let (mut ledger, pool_id) = ledger_with_reserves(1_000_000, 1_000_000);
    let pool_before = ledger.get_pool(pool_id).liquidity;
    let bob_before = ledger.get_position_liquidity(pool_id, bob());
    let minted = ledger.add_liquidity(bob(), pool_id, n(500), n(1000), n(0), n(0)).unwrap();
    assert_eq!(minted.amount0, n(500));
    assert_eq!(minted.amount1, n(500));
    assert_eq!(minted.liquidity, n(500));
    let pool = ledger.get_pool(pool_id);
    assert_eq!(pool.liquidity, n(1_000_500));
    assert_eq!(pool.balance0, n(1_000_500));
    assert_eq!(pool.balance1, n(1_000_500));
    let bob_after = ledger.get_position_liquidity(pool_id, bob());
    assert_eq!(bob_after, n(500));
    assert_eq!(pool.liquidity.checked_sub(pool_before), bob_after.checked_sub(bob_before));
    assert_eq!(ledger.get_position_liquidity(pool_id, alice()), n(999_000));

    let again = ledger.add_liquidity(bob(), pool_id, n(1000), n(1000), n(0), n(1000)).unwrap();
    assert_eq!(again.liquidity, n(1000));
    assert_eq!(ledger.get_position_liquidity(pool_id, bob()), n(1500));
    assert_eq!(ledger.get_pool(pool_id).liquidity, n(1_001_500));
}

#[test]
fn a_refused_deposit_changes_nothing() {
    let (mut ledger, pool_id) = ledger_with_reserves(1_000_000, 2_000_000);
    let before = ledger.get_pool(pool_id);
    assert_eq!(
        ledger.add_liquidity(bob(), pool_id, n(500), n(1000), n(0), n(1001)),
        Err(StylusSwapError::InsufficientAmount)
    );
    assert_eq!(
        ledger.add_liquidity(bob(), pool_id, n(500), n(999), n(0), n(0)),
        Err(StylusSwapError::InsufficientAmount)
    );
    assert_eq!(
        ledger.add_liquidity(bob(), pool_id, n(0), n(0), n(0), n(0)),
        Err(StylusSwapError::InsufficientLiquidityMinted)
    );
    assert_eq!(ledger.get_pool(pool_id), before);
    assert_eq!(ledger.get_position_liquidity(pool_id, bob()), n(0));
}

#[test]
fn a_deposit_whose_arithmetic_leaves_256_bits_is_a_fault() {
    let (mut ledger, pool_id) = ledger_with_pool();
    let two_to_100 = U256::from_limbs([0, 1 << 36, 0, 0]);
    let two_to_150 = U256::from_limbs([0, 0, 1 << 22, 0]);
    let two_to_200 = U256::from_limbs([0, 0, 0, 1 << 8]);
    let minted = ledger.add_liquidity(alice(), pool_id, two_to_100, two_to_150, n(0), n(0)).unwrap();
    assert_eq!(minted.liquidity, U256::from_limbs([0, 1 << 61, 0, 0]));
    let before = ledger.get_pool(pool_id);
    assert_eq!(
        ledger.add_liquidity(bob(), pool_id, two_to_200, two_to_200, n(0), n(0)),
        Err(StylusSwapError::ArithmeticFault)
    );
    assert_eq!(ledger.get_pool(pool_id), before);
    assert_eq!(ledger.get_position_liquidity(pool_id, bob()), n(0));
}

#[test]
fn a_withdrawal_pays_its_share_and_burns_what_was_withdrawn() {
    let (mut ledger, pool_id) = ledger_with_reserves(1_000_000, 4_000_000);
    assert_eq!(ledger.get_pool(pool_id).liquidity, n(2_000_000));
    assert_eq!(ledger.get_position_liquidity(pool_id, alice()), n(1_999_000));
    let burned = ledger.remove_liquidity(alice(), pool_id, n(300_001));
    assert_eq!(
        burned,
        Ok(LiquidityBurned {
            pool_id,
            owner: alice(),
            liquidity: n(300_001),
            token0: token_x(),
            token1: token_y(),
            amount0: n(150_000),
            amount1: n(600_002),
        })
    );
    let pool = ledger.get_pool(pool_id);
    assert_eq!(pool.liquidity, n(1_699_999));
    assert_eq!(pool.balance0, n(850_000));
    assert_eq!(pool.balance1, n(3_399_998));
    assert_eq!(ledger.get_position_liquidity(pool_id, alice()), n(1_698_999));
}

#[test]
fn a_withdrawal_beyond_the_position_is_refused() {
    let (mut ledger, pool_id) = ledger_with_reserves(1_000_000, 1_000_000);
    let before = ledger.get_pool(pool_id);
    assert_eq!(
        ledger.remove_liquidity(alice(), pool_id, n(999_001)),
        Err(StylusSwapError::InsufficientLiquidityOwned)
    );
    assert_eq!(ledger.remove_liquidity(bob(), pool_id, n(1)), Err(StylusSwapError::InsufficientLiquidityOwned));
    assert_eq!(ledger.get_pool(pool_id), before);
    assert_eq!(ledger.get_position_liquidity(pool_id, alice()), n(999_000));
    assert!(ledger.remove_liquidity(alice(), pool_id, n(999_000)).is_ok());
    assert_eq!(ledger.get_position_liquidity(pool_id, alice()), n(0));
    assert_eq!(ledger.get_pool(pool_id).liquidity, n(1000));
}

#[test]
fn a_withdrawal_of_nothing_is_refused() {
    let (mut ledger, pool_id) = ledger_with_reserves(1_000_000, 1_000_000);
    assert_eq!(ledger.remove_liquidity(alice(), pool_id, n(0)), Err(StylusSwapError::InsufficientLiquidityOwned));
    assert_eq!(ledger.remove_liquidity(bob(), pool_id, n(0)), Err(StylusSwapError::InsufficientLiquidityOwned));
}

#[test]
fn a_withdrawal_from_a_pool_without_deposits_is_a_fault() {
    let (mut ledger, pool_id) = ledger_with_pool();
    assert_eq!(ledger.remove_liquidity(alice(), pool_id, n(0)), Err(StylusSwapError::ArithmeticFault));
    assert_eq!(ledger.remove_liquidity(alice(), pool_id, n(1)), Err(StylusSwapError::InsufficientLiquidityOwned));
}

#[test]
fn liquidity_is_the_positions_and_the_lock() {
    let (mut ledger, pool_id) = ledger_with_reserves(1_000_000, 1_000_000);
    let owners = [alice(), bob()];
    assert_eq!(ledger.get_pool(pool_id).liquidity, sum_and_lock(&ledger, pool_id, &owners));
    ledger.add_liquidity(bob(), pool_id, n(70_000), n(70_000), n(0), n(0)).unwrap();
    assert_eq!(ledger.get_pool(pool_id).liquidity, sum_and_lock(&ledger, pool_id, &owners));
    ledger.swap(bob(), pool_id, n(12_345), n(0), true).unwrap();
    assert_eq!(ledger.get_pool(pool_id).liquidity, sum_and_lock(&ledger, pool_id, &owners));
    ledger.remove_liquidity(alice(), pool_id, n(400_000)).unwrap();
    assert_eq!(ledger.get_pool(pool_id).liquidity, sum_and_lock(&ledger, pool_id, &owners));
    ledger.add_liquidity(alice(), pool_id, n(5_000), n(9_000), n(0), n(0)).unwrap();
    assert_eq!(ledger.get_pool(pool_id).liquidity, sum_and_lock(&ledger, pool_id, &owners));
    ledger.remove_liquidity(bob(), pool_id, n(70_000)).unwrap();
    assert_eq!(ledger.get_position_liquidity(pool_id, bob()), n(0));
    assert_eq!(ledger.get_pool(pool_id).liquidity, sum_and_lock(&ledger, pool_id, &owners));
}

#[test]
fn positions_of_other_pools_are_not_touched() {
    let (mut ledger, pool_id) = ledger_with_reserves(1_000_000, 1_000_000);
    let other = ledger.create_pool(token_x(), token_y(), 5).unwrap().pool_id;
    ledger.add_liquidity(alice(), other, n(3000), n(3000), n(0), n(0)).unwrap();
    assert_eq!(ledger.get_position_liquidity(other, alice()), n(2000));
    assert_eq!(ledger.get_position_liquidity(pool_id, alice()), n(999_000));
    ledger.remove_liquidity(alice(), pool_id, n(9_000)).unwrap();
    assert_eq!(ledger.get_position_liquidity(other, alice()), n(2000));
    assert_eq!(ledger.get_pool(other).liquidity, n(3000));
    assert_eq!(ledger.get_pool(pool_id).liquidity, n(991_000));
}

#[test]
fn a_swap_of_the_first_asset_for_the_second() {
    let (mut ledger, pool_id) = ledger_with_reserves(1_000_000, 2_000_000);
    let swapped = ledger.swap(bob(), pool_id, n(1000), n(1994), true);
    assert_eq!(
        swapped,
        Ok(Swap {
            pool_id,
            user: bob(),
            input_token: token_x(),
            output_token: token_y(),
            input_amount: n(1000),
            output_amount_after_fees: n(1994),
            fees: n(5),
            zero_for_one: true,
        })
    );
    let pool = ledger.get_pool(pool_id);
    assert_eq!(pool.balance0, n(1_001_000));
    assert_eq!(pool.balance1, n(1_998_006));
    assert_eq!(pool.liquidity, n(1_414_213));
}

#[test]
fn a_swap_of_the_second_asset_for_the_first() {
    let (mut ledger, pool_id) = ledger_with_reserves(1_000_000, 2_000_000);
    let swapped = ledger.swap(bob(), pool_id, n(1000), n(0), false).unwrap();
    assert_eq!(swapped.input_token, token_y());
    assert_eq!(swapped.output_token, token_x());
    assert_eq!(swapped.output_amount_after_fees, n(499));
    assert_eq!(swapped.fees, n(1));
    assert!(!swapped.zero_for_one);
    let pool = ledger.get_pool(pool_id);
    assert_eq!(pool.balance0, n(999_501));
    assert_eq!(pool.balance1, n(2_001_000));
}

#[test]
fn a_swap_under_its_floor_is_refused() {
    let (mut ledger, pool_id) = ledger_with_reserves(1_000_000, 2_000_000);
    let before = ledger.get_pool(pool_id);
    assert_eq!(ledger.swap(bob(), pool_id, n(1000), n(2000), true), Err(StylusSwapError::TooMuchSlippage));
    assert_eq!(ledger.swap(bob(), pool_id, n(1000), n(1995), true), Err(StylusSwapError::TooMuchSlippage));
    assert_eq!(ledger.get_pool(pool_id), before);
}

#[test]
fn a_swap_of_nothing_is_refused() {
    let (mut ledger, pool_id) = ledger_with_reserves(1_000_000, 2_000_000);
    assert_eq!(ledger.swap(bob(), pool_id, n(0), n(0), true), Err(StylusSwapError::InsufficientAmount));
    let nowhere = B256::from_bytes([9; 32]);
    assert_eq!(ledger.swap(bob(), nowhere, n(0), n(0), true), Err(StylusSwapError::InsufficientAmount));
}

#[test]
fn the_product_of_the_reserves_does_not_fall_across_swaps_with_a_fee() {
    let (mut ledger, pool_id) = ledger_with_reserves(1_000_000, 2_000_000);
    let mut product = n(1_000_000).checked_mul(n(2_000_000)).unwrap();
    let steps: [(u64, bool); 5] = [(1000, true), (250_000, false), (70_000, true), (999_999, true), (3_000_000, false)];
    for (amount, direction) in steps {
        let swapped = ledger.swap(bob(), pool_id, n(amount), n(0), direction).unwrap();
        assert!(!swapped.fees.is_zero());
        let pool = ledger.get_pool(pool_id);
        let after = pool.balance0.checked_mul(pool.balance1).unwrap();
        assert!(product.le(after));
        product = after;
    }
}

#[test]
fn the_product_of_the_reserves_can_fall_where_no_fee_is_kept() {
    let mut ledger = StylusSwap::new();
    let pool_id = ledger.create_pool(token_x(), token_y(), 0).unwrap().pool_id;
    ledger.add_liquidity(alice(), pool_id, n(1_000_000), n(2_000_000), n(0), n(0)).unwrap();
    let swapped = ledger.swap(bob(), pool_id, n(1000), n(0), true).unwrap();
    assert_eq!(swapped.output_amount_after_fees, n(1999));
    assert_eq!(swapped.fees, n(0));
    let pool = ledger.get_pool(pool_id);
    let after = pool.balance0.checked_mul(pool.balance1).unwrap();
    assert_eq!(after, n(1_999_999_001_000));
    assert!(after.lt(n(2_000_000_000_000)));
}
