use stylus_swap::address::{Address, B256};
use stylus_swap::identity::{derive_pool_id, derive_position_id, MAX_FEE};
use stylus_swap::ledger::StylusSwap;

fn token_x() -> Address {
    Address::from_bytes([0x11; 20])
}

fn token_y() -> Address {
    Address::from_bytes([0x22; 20])
}

fn holder() -> Address {
    Address::from_bytes([1, 2, 3, 4, 5, 6, 7, 8, 9, 10, 11, 12, 13, 14, 15, 16, 17, 18, 19, 20])
}

const POOL_XY_30: [u8; 32] = [
    0x4a, 0xd7, 0xe5, 0x8c, 0x4c, 0xdf, 0x25, 0x1a, 0xa7, 0x9d, 0xb7, 0xe8, 0x3c, 0xbc, 0x41, 0x68, 0x37, 0x9c,
    0x6d, 0xee, 0xfe, 0x48, 0x2f, 0x13, 0x17, 0xbc, 0x74, 0x49, 0x05, 0x90, 0x78, 0xb8,
];

#[test]
fn pool_id_is_the_hash_of_three_words() {
    let (id, token0, token1) = derive_pool_id(token_x(), token_y(), 30);
    assert_eq!(id, B256::from_bytes(POOL_XY_30));
    assert_eq!(token0, token_x());
    assert_eq!(token1, token_y());
}

#[test]
fn pool_id_does_not_depend_on_the_order_of_the_assets() {
    let forward = derive_pool_id(token_x(), token_y(), 30);
    let backward = derive_pool_id(token_y(), token_x(), 30);
    assert_eq!(forward, backward);
    assert_eq!(backward.1, token_x());
    assert_eq!(backward.2, token_y());
    assert!(backward.1.le(&backward.2));
    assert!(!backward.1.same(&backward.2));
}

#[test]
fn pool_id_takes_all_three_bytes_of_the_fee() {
    let (id, _, _) = derive_pool_id(token_x(), token_y(), 0x010203);
    assert_eq!(
        id,
        B256::from_bytes([
            0x1f, 0xef, 0xc3, 0xb9, 0xfc, 0xa2, 0x03, 0x42, 0xaf, 0x47, 0x41, 0x40, 0x60, 0x08, 0xa4, 0x46, 0x27,
            0x8c, 0x36, 0xd4, 0x69, 0x6b, 0x82, 0x65, 0xf9, 0xca, 0xad, 0x28, 0xcd, 0xf3, 0x5e, 0x20,
        ])
    );
    assert_ne!(id, B256::from_bytes(POOL_XY_30));
    let (widest, _, _) = derive_pool_id(token_x(), token_y(), MAX_FEE);
    assert_ne!(widest, id);
}

#[test]
fn the_native_asset_sorts_first() {
    let (id, token0, token1) = derive_pool_id(token_y(), Address::zero(), 30);
    assert_eq!(token0, Address::zero());
    assert_eq!(token1, token_y());
    assert_eq!(
        id,
        B256::from_bytes([
            0x8e, 0x4e, 0xff, 0xce, 0x8e, 0xdd, 0x6a, 0x6a, 0x66, 0xa9, 0x08, 0x2f, 0x86, 0xa0, 0x31, 0x59, 0x74,
            0x41, 0x74, 0x52, 0x40, 0x0b, 0xed, 0x33, 0x3a, 0x64, 0x1a, 0x0c, 0xe2, 0x7d, 0x31, 0x4a,
        ])
    );
}

#[test]
fn equal_assets_are_not_refused() {
    let (_, token0, token1) = derive_pool_id(token_x(), token_x(), 30);
    assert_eq!(token0, token_x());
    assert_eq!(token1, token_x());
}

#[test]
fn order_is_decided_by_the_first_byte_that_differs() {
    let mut low = [0x11; 20];
    let mut high = [0x11; 20];
    low[19] = 0x10;
    high[3] = 0x12;
    let (_, token0, token1) = derive_pool_id(Address::from_bytes(high), Address::from_bytes(low), 5);
    assert_eq!(token0, Address::from_bytes(low));
    assert_eq!(token1, Address::from_bytes(high));
    let (_, first, second) = derive_pool_id(Address::from_bytes(high), token_x(), 5);
    assert_eq!(first, token_x());
    assert_eq!(second, Address::from_bytes(high));
}

#[test]
fn position_id_is_the_hash_of_pool_and_owner() {
    let id = derive_position_id(B256::from_bytes(POOL_XY_30), holder());
    assert_eq!(
        id,
        B256::from_bytes([
            0x90, 0x19, 0x88, 0x1b, 0xe4, 0xf8, 0xac, 0x51, 0xc9, 0xab, 0xfd, 0x85, 0x4c, 0x7e, 0xa8, 0x5b, 0x2f,
            0xd1, 0x2a, 0x6c, 0xf9, 0x21, 0xce, 0x37, 0x97, 0x21, 0x32, 0xb4, 0x94, 0xe0, 0xef, 0xda,
        ])
    );
    assert_ne!(id, derive_position_id(B256::from_bytes(POOL_XY_30), token_x()));
}

#[test]
fn the_ledger_derives_the_same_keys() {
    let ledger = StylusSwap::new();
    assert_eq!(ledger.get_pool_id(token_y(), token_x(), 30), derive_pool_id(token_x(), token_y(), 30));
    assert_eq!(
        ledger.get_position_id(B256::from_bytes(POOL_XY_30), holder()),
        derive_position_id(B256::from_bytes(POOL_XY_30), holder())
    );
}

#[test]
fn addresses_compare_by_their_bytes() {
    assert!(Address::zero().is_zero());
    assert!(!token_x().is_zero());
    assert!(token_x().same(&Address::from_bytes([0x11; 20])));
    assert!(!token_x().same(&token_y()));
    assert!(token_x().le(&token_x()));
    assert!(token_x().le(&token_y()));
    assert!(!token_y().le(&token_x()));
    assert!(B256::from_bytes([7; 32]).same(&B256::from_bytes([7; 32])));
    assert!(!B256::from_bytes([7; 32]).same(&B256::from_bytes([8; 32])));
}
