//! The ways in which an operation on the ledger is refused.

use crate::address::{Address, B256};
use crate::uint256::U256;
use vstd::prelude::*;

verus! {

/// Why an operation was refused. A refused operation changes nothing.
#[derive(Clone, Copy, Debug, PartialEq, Eq)]
pub enum StylusSwapError {
    /// A pool for this pair of assets and this fee is already there.
    PoolAlreadyExists(B256),
    /// No pool is stored under this key.
    PoolDoesNotExist(B256),
    /// A deposit cannot meet its stated minimum, or a swap has no input.
    InsufficientAmount,
    /// A deposit would mint nothing, or no more than the bootstrap lock.
    InsufficientLiquidityMinted,
    /// A withdrawal exceeds what the caller owns, or would pay out nothing
    /// of one asset.
    InsufficientLiquidityOwned,
    /// A movement of assets failed or was not covered.
    FailedOrInsufficientTokenTransfer { token: Address, from: Address, to: Address, amount: U256 },
    /// A swap would pay out less than the caller's floor.
    TooMuchSlippage,
    /// An intermediate value does not fit in 256 bits, goes below zero, or
    /// has a zero divisor.
    ArithmeticFault,
}

} // verus!
