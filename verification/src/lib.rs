//! Pool accounting for a constant-product market maker: identities of pools
//! and positions, deposit and withdrawal arithmetic, the swap formula, and a
//! ledger that keeps every pool's liquidity equal to what its owners hold.

pub mod address;
pub mod errors;
pub mod identity;
pub mod ledger;
pub mod math;
pub mod pool;
pub mod transfer;
pub mod uint256;

pub use crate::address::{Address, B256};
pub use crate::errors::StylusSwapError;
pub use crate::ledger::StylusSwap;
pub use crate::uint256::U256;
