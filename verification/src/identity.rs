//! Keys of pools and positions. A pool's key is the Keccak-256 hash of its two
//! assets, in ascending order, and its fee; a position's key is the hash of
//! its pool's key and its owner. Each is hashed in the fixed-width layout of
//! the contract ABI: one 32-byte word per field.

use crate::address::{bytes_le, lemma_address_by_view, lemma_order_antisymmetric, lemma_order_total, Address, B256};
use vstd::prelude::*;

verus! {

/// The largest fee rate that a pool can hold: 24 bits.
pub const MAX_FEE: u32 = 0xFF_FFFF;

/// `n` zero bytes.
pub open spec fn zeros(n: nat) -> Seq<u8> {
    Seq::new(n, |i: int| 0u8)
}

/// The three bytes of a fee rate, most significant first.
pub open spec fn fee_bytes(fee: u32) -> Seq<u8> {
    seq![((fee / 0x1_0000) % 0x100) as u8, ((fee / 0x100) % 0x100) as u8, (fee % 0x100) as u8]
}

/// What is hashed for a pool: three words, each field right-aligned in its own.
pub open spec fn pool_preimage(token0: Seq<u8>, token1: Seq<u8>, fee: u32) -> Seq<u8> {
    zeros(12) + token0 + zeros(12) + token1 + zeros(29) + fee_bytes(fee)
}

/// What is hashed for a position: the pool's key, then the owner
/// right-aligned in a word.
pub open spec fn position_preimage(pool_id: Seq<u8>, owner: Seq<u8>) -> Seq<u8> {
    pool_id + zeros(12) + owner
}

/// The Keccak-256 hash of a byte string.
pub uninterp spec fn keccak256(bytes: Seq<u8>) -> Seq<u8>;

/// The two assets in ascending order.
pub open spec fn token_pair(token_a: Address, token_b: Address) -> (Address, Address) {
    if bytes_le(token_a@, token_b@) {
        (token_a, token_b)
    } else {
        (token_b, token_a)
    }
}

/// The key of the pool of two assets at a fee.
pub open spec fn pool_id_of(token_a: Address, token_b: Address, fee: u32) -> Seq<u8> {
    let pair = token_pair(token_a, token_b);
    keccak256(pool_preimage(pair.0@, pair.1@, fee))
}

/// The key of an owner's position in a pool.
pub open spec fn position_id_of(pool_id: B256, owner: Address) -> Seq<u8> {
    keccak256(position_preimage(pool_id@, owner@))
}

/// Trusted: `stylus_sdk::crypto::keccak`, which hands its argument to
/// `alloy_primitives::keccak256`. The result is the Keccak-256 hash of the
/// bytes, a function of the bytes alone.
#[verifier::external_body]
fn keccak(bytes: &Vec<u8>) -> (hash: B256)
    ensures
        hash@ == keccak256(bytes@),
{
    B256 { bytes: stylus_sdk::crypto::keccak(bytes).0 }
}

/// Trusted: `SolValue::abi_encode_sequence` of alloy-sol-types on a tuple of
/// two addresses and a 24-bit unsigned integer. Each field fills one 32-byte
/// word: an address behind twelve zero bytes, the integer big-endian behind
/// twenty-nine.
#[verifier::external_body]
fn encode_pool_fields(token0: &Address, token1: &Address, fee: u32) -> (out: Vec<u8>)
    requires
        fee <= MAX_FEE,
    ensures
        out@ == pool_preimage(token0@, token1@, fee),
{
    let first = alloy_primitives::Address::from(token0.bytes);
    let second = alloy_primitives::Address::from(token1.bytes);
    let rate = alloy_primitives::aliases::U24::from(fee);
    alloy_sol_types::SolValue::abi_encode_sequence(&(first, second, rate))
}

/// Trusted: `SolValue::abi_encode_sequence` of alloy-sol-types on a tuple of
/// a 32-byte value and an address. The value fills the first word as it is;
/// the address fills the second behind twelve zero bytes.
#[verifier::external_body]
fn encode_position_fields(pool_id: &B256, owner: &Address) -> (out: Vec<u8>)
    ensures
        out@ == position_preimage(pool_id@, owner@),
{
    let pool = alloy_primitives::B256::from(pool_id.bytes);
    let holder = alloy_primitives::Address::from(owner.bytes);
    alloy_sol_types::SolValue::abi_encode_sequence(&(pool, holder))
}

/// The key of the pool of two assets at a fee, with the assets in ascending
/// order. The order in which the assets are given does not matter.
pub fn derive_pool_id(token_a: Address, token_b: Address, fee: u32) -> (r: (B256, Address, Address))
    requires
        fee <= MAX_FEE,
    ensures
        r.0@ == pool_id_of(token_a, token_b, fee),
        (r.1, r.2) == token_pair(token_a, token_b),
{
    let (token0, token1) = if token_a.le(&token_b) {
        (token_a, token_b)
    } else {
        (token_b, token_a)
    };
    let preimage = encode_pool_fields(&token0, &token1, fee);
    (keccak(&preimage), token0, token1)
}

/// The key of an owner's position in a pool.
pub fn derive_position_id(pool_id: B256, owner: Address) -> (r: B256)
    ensures
        r@ == position_id_of(pool_id, owner),
{
    let preimage = encode_position_fields(&pool_id, &owner);
    keccak(&preimage)
}

/// A pool's key and its ordered assets do not depend on the order in which
/// the two assets are given; the first of the ordered assets is never after
/// the second, and they are equal only where the two given assets are.
pub proof fn lemma_pool_id_order_independent(token_a: Address, token_b: Address, fee: u32)
    ensures
        pool_id_of(token_a, token_b, fee) == pool_id_of(token_b, token_a, fee),
        token_pair(token_a, token_b) == token_pair(token_b, token_a),
        bytes_le(token_pair(token_a, token_b).0@, token_pair(token_a, token_b).1@),
        token_a != token_b ==> token_pair(token_a, token_b).0 != token_pair(token_a, token_b).1,
{
    lemma_order_total(token_a@, token_b@, 0);
    if bytes_le(token_a@, token_b@) && bytes_le(token_b@, token_a@) {
        lemma_order_antisymmetric(token_a@, token_b@, 0);
        lemma_address_by_view(token_a, token_b);
    }
}

} // verus!
