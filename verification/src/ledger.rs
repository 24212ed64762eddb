//! The ledger: a table of pools and a table of positions, each record found
//! by its key. Every operation is one step from a well-formed ledger to a
//! well-formed ledger, or a refusal that changes nothing. In a well-formed
//! ledger the liquidity of each pool is what its positions hold together,
//! plus the bootstrap lock once the pool has had its first deposit.

use crate::address::{Address, B256};
use crate::errors::StylusSwapError;
use crate::identity::{derive_pool_id, derive_position_id, pool_id_of, position_id_of, token_pair, MAX_FEE};
use crate::math::{
    compute_liquidity_amounts, lemma_withdrawal_within_reserves, liquidity_amounts, pair_is, MINIMUM_LIQUIDITY,
};
use crate::pool::{
    burned_is, created, deposit, exchange, minted_is, swap_is, withdrawal, LiquidityBurned, LiquidityMinted, Pool,
    PoolCreated, PoolState, Swap,
};
use crate::uint256::U256;
use vstd::prelude::*;

verus! {

/// An owner's share of a pool as it is stored. The key decides whose it is;
/// `owner` is kept for reference.
#[derive(Clone, Copy, Debug, PartialEq, Eq)]
pub struct Position {
    pub pool_id: B256,
    pub id: B256,
    pub owner: Address,
    pub liquidity: U256,
}

/// Record `i` of `pools` is the one with key `id`.
pub open spec fn holds_pool(pools: Seq<Pool>, id: Seq<u8>, i: int) -> bool {
    0 <= i < pools.len() && pools[i].id@ == id
}

/// The pool stored under `id`, or the vacant pool.
pub open spec fn pool_in(pools: Seq<Pool>, id: Seq<u8>) -> PoolState {
    if exists|i: int| holds_pool(pools, id, i) {
        pools[choose|i: int| holds_pool(pools, id, i)]@
    } else {
        PoolState::vacant()
    }
}

/// Record `j` of `positions` is the one with key `id` in pool `pool_id`.
pub open spec fn holds_position(positions: Seq<Position>, pool_id: Seq<u8>, id: Seq<u8>, j: int) -> bool {
    0 <= j < positions.len() && positions[j].pool_id@ == pool_id && positions[j].id@ == id
}

/// The liquidity of the position stored under `id` in pool `pool_id`, or zero.
pub open spec fn liquidity_in(positions: Seq<Position>, pool_id: Seq<u8>, id: Seq<u8>) -> nat {
    if exists|j: int| holds_position(positions, pool_id, id, j) {
        positions[choose|j: int| holds_position(positions, pool_id, id, j)].liquidity@
    } else {
        0
    }
}

/// The liquidity of all positions of pool `pool_id` together.
pub open spec fn liquidity_sum(positions: Seq<Position>, pool_id: Seq<u8>) -> nat
    decreases positions.len(),
{
    if positions.len() == 0 {
        0
    } else {
        liquidity_sum(positions.drop_last(), pool_id) + if positions.last().pool_id@ == pool_id {
            positions.last().liquidity@
        } else {
            0
        }
    }
}

/// No two pool records have one key.
pub open spec fn distinct_pools(pools: Seq<Pool>) -> bool {
    forall|i: int, j: int|
        0 <= i < pools.len() && 0 <= j < pools.len() && pools[i].id@ == pools[j].id@ ==> i == j
}

/// No two position records have one key in one pool.
pub open spec fn distinct_positions(positions: Seq<Position>) -> bool {
    forall|i: int, j: int|
        0 <= i < positions.len() && 0 <= j < positions.len() && positions[i].pool_id@ == positions[j].pool_id@
            && positions[i].id@ == positions[j].id@ ==> i == j
}

/// The liquidity that no position holds: nothing before the first deposit,
/// the bootstrap lock after it.
pub open spec fn locked(liquidity: nat) -> nat {
    if liquidity == 0 {
        0
    } else {
        MINIMUM_LIQUIDITY as nat
    }
}

/// `after` reads as `before` does, but for `state` under `id`.
pub open spec fn pools_set(before: Seq<Pool>, after: Seq<Pool>, id: Seq<u8>, state: PoolState) -> bool {
    forall|k: Seq<u8>| #[trigger]
        pool_in(after, k) == if k == id {
            state
        } else {
            pool_in(before, k)
        }
}

/// `after` reads as `before` does, but for `liquidity` under `id` in pool
/// `pool_id`.
pub open spec fn positions_set(
    before: Seq<Position>,
    after: Seq<Position>,
    pool_id: Seq<u8>,
    id: Seq<u8>,
    liquidity: nat,
) -> bool {
    forall|p: Seq<u8>, q: Seq<u8>| #[trigger]
        liquidity_in(after, p, q) == if p == pool_id && q == id {
            liquidity
        } else {
            liquidity_in(before, p, q)
        }
}

/// Replacing a pool record by one with the same key changes what is read
/// under that key and nothing else.
proof fn lemma_pool_replaced(pools: Seq<Pool>, i: int, record: Pool)
    requires
        distinct_pools(pools),
        0 <= i < pools.len(),
        record.id@ == pools[i].id@,
    ensures
        distinct_pools(pools.update(i, record)),
        pools_set(pools, pools.update(i, record), record.id@, record@),
{
    let after = pools.update(i, record);
    assert forall|k: Seq<u8>| #[trigger]
        pool_in(after, k) == if k == record.id@ {
            record@
        } else {
            pool_in(pools, k)
        } by {
        assert forall|x: int| holds_pool(after, k, x) == holds_pool(pools, k, x) by {}
        if k == record.id@ {
            assert(holds_pool(after, k, i));
        } else if exists|x: int| holds_pool(pools, k, x) {
            let x = choose|x: int| holds_pool(pools, k, x);
            assert(holds_pool(after, k, x));
            let y = choose|y: int| holds_pool(after, k, y);
            assert(holds_pool(pools, k, y));
        }
    }
}

/// Adding a pool record under a key that no record has changes what is read
/// under that key and nothing else.
proof fn lemma_pool_added(pools: Seq<Pool>, record: Pool)
    requires
        distinct_pools(pools),
        forall|i: int| !holds_pool(pools, record.id@, i),
    ensures
        distinct_pools(pools.push(record)),
        pools_set(pools, pools.push(record), record.id@, record@),
{
    let after = pools.push(record);
    let last = pools.len() as int;
    assert forall|i: int, j: int|
        0 <= i < after.len() && 0 <= j < after.len() && after[i].id@ == after[j].id@ implies i == j by {
        if i < last {
            assert(!holds_pool(pools, record.id@, i));
        }
        if j < last {
            assert(!holds_pool(pools, record.id@, j));
        }
    }
    assert forall|k: Seq<u8>| #[trigger]
        pool_in(after, k) == if k == record.id@ {
            record@
        } else {
            pool_in(pools, k)
        } by {
        if k == record.id@ {
            assert(holds_pool(after, k, last));
            let y = choose|y: int| holds_pool(after, k, y);
            if y < last {
                assert(!holds_pool(pools, record.id@, y));
            }
        } else {
            assert forall|x: int| holds_pool(after, k, x) == holds_pool(pools, k, x) by {}
            if exists|x: int| holds_pool(pools, k, x) {
                let x = choose|x: int| holds_pool(pools, k, x);
                assert(holds_pool(after, k, x));
                let y = choose|y: int| holds_pool(after, k, y);
                assert(holds_pool(pools, k, y));
            }
        }
    }
}

/// Replacing a position record by one with the same key changes what is read
/// under that key and nothing else.
proof fn lemma_position_replaced(positions: Seq<Position>, j: int, record: Position)
    requires
        distinct_positions(positions),
        0 <= j < positions.len(),
        record.pool_id@ == positions[j].pool_id@,
        record.id@ == positions[j].id@,
    ensures
        distinct_positions(positions.update(j, record)),
        positions_set(positions, positions.update(j, record), record.pool_id@, record.id@, record.liquidity@),
{
    let after = positions.update(j, record);
    assert forall|p: Seq<u8>, q: Seq<u8>| #[trigger]
        liquidity_in(after, p, q) == if p == record.pool_id@ && q == record.id@ {
            record.liquidity@
        } else {
            liquidity_in(positions, p, q)
        } by {
        assert forall|x: int| holds_position(after, p, q, x) == holds_position(positions, p, q, x) by {}
        if p == record.pool_id@ && q == record.id@ {
            assert(holds_position(after, p, q, j));
        } else if exists|x: int| holds_position(positions, p, q, x) {
            let x = choose|x: int| holds_position(positions, p, q, x);
            assert(holds_position(after, p, q, x));
            let y = choose|y: int| holds_position(after, p, q, y);
            assert(holds_position(positions, p, q, y));
        }
    }
}

/// Adding a position record under a key that no record has changes what is
/// read under that key and nothing else.
proof fn lemma_position_added(positions: Seq<Position>, record: Position)
    requires
        distinct_positions(positions),
        forall|j: int| !holds_position(positions, record.pool_id@, record.id@, j),
    ensures
        distinct_positions(positions.push(record)),
        positions_set(positions, positions.push(record), record.pool_id@, record.id@, record.liquidity@),
{
    let after = positions.push(record);
    let last = positions.len() as int;
    assert forall|i: int, j: int|
        0 <= i < after.len() && 0 <= j < after.len() && after[i].pool_id@ == after[j].pool_id@ && after[i].id@
            == after[j].id@ implies i == j by {
        if i < last {
            assert(!holds_position(positions, record.pool_id@, record.id@, i));
        }
        if j < last {
            assert(!holds_position(positions, record.pool_id@, record.id@, j));
        }
    }
    assert forall|p: Seq<u8>, q: Seq<u8>| #[trigger]
        liquidity_in(after, p, q) == if p == record.pool_id@ && q == record.id@ {
            record.liquidity@
        } else {
            liquidity_in(positions, p, q)
        } by {
        if p == record.pool_id@ && q == record.id@ {
            assert(holds_position(after, p, q, last));
            let y = choose|y: int| holds_position(after, p, q, y);
            if y < last {
                assert(!holds_position(positions, record.pool_id@, record.id@, y));
            }
        } else {
            assert forall|x: int| holds_position(after, p, q, x) == holds_position(positions, p, q, x) by {}
            if exists|x: int| holds_position(positions, p, q, x) {
                let x = choose|x: int| holds_position(positions, p, q, x);
                assert(holds_position(after, p, q, x));
                let y = choose|y: int| holds_position(after, p, q, y);
                assert(holds_position(positions, p, q, y));
            }
        }
    }
}

/// A position added to a pool adds its liquidity to that pool's sum and to no
/// other.
proof fn lemma_sum_added(positions: Seq<Position>, record: Position, pool_id: Seq<u8>)
    ensures
        liquidity_sum(positions.push(record), pool_id) == liquidity_sum(positions, pool_id) + if record.pool_id@
            == pool_id {
            record.liquidity@
        } else {
            0
        },
{
    assert(positions.push(record).drop_last() =~= positions);
}

/// A position replaced within its pool changes that pool's sum by the
/// difference and no other sum.
proof fn lemma_sum_replaced(positions: Seq<Position>, j: int, record: Position, pool_id: Seq<u8>)
    requires
        0 <= j < positions.len(),
        record.pool_id@ == positions[j].pool_id@,
    ensures
        liquidity_sum(positions.update(j, record), pool_id) + (if record.pool_id@ == pool_id {
            positions[j].liquidity@
        } else {
            0
        }) == liquidity_sum(positions, pool_id) + (if record.pool_id@ == pool_id {
            record.liquidity@
        } else {
            0
        }),
    decreases positions.len(),
{
    let after = positions.update(j, record);
    if j == positions.len() - 1 {
        assert(after.drop_last() =~= positions.drop_last());
    } else {
        assert(after.drop_last() =~= positions.drop_last().update(j, record));
        lemma_sum_replaced(positions.drop_last(), j, record, pool_id);
    }
}

/// No position holds more than the sum over its pool.
proof fn lemma_sum_covers(positions: Seq<Position>, j: int)
    requires
        0 <= j < positions.len(),
    ensures
        positions[j].liquidity@ <= liquidity_sum(positions, positions[j].pool_id@),
    decreases positions.len(),
{
    if j < positions.len() - 1 {
        lemma_sum_covers(positions.drop_last(), j);
    }
}

/// With unique keys, the record found under a key is the one that is read.
proof fn lemma_pool_read(pools: Seq<Pool>, id: Seq<u8>, i: int)
    requires
        holds_pool(pools, id, i),
        distinct_pools(pools),
    ensures
        pool_in(pools, id) == pools[i]@,
{
    let x = choose|x: int| holds_pool(pools, id, x);
    assert(holds_pool(pools, id, x));
}

/// With unique keys, the record found under a key is the one that is read.
proof fn lemma_position_read(positions: Seq<Position>, pool_id: Seq<u8>, id: Seq<u8>, j: int)
    requires
        holds_position(positions, pool_id, id, j),
        distinct_positions(positions),
    ensures
        liquidity_in(positions, pool_id, id) == positions[j].liquidity@,
{
    let x = choose|x: int| holds_position(positions, pool_id, id, x);
    assert(holds_position(positions, pool_id, id, x));
}

/// Writing a position record, in place of the one with its key or as a new
/// one, changes what is read under that key and the sum of its pool by the
/// same amount, and nothing else. What was there was within the sum.
proof fn lemma_position_written(
    positions: Seq<Position>,
    after: Seq<Position>,
    slot: Option<usize>,
    record: Position,
)
    requires
        distinct_positions(positions),
        match slot {
            Some(j) => holds_position(positions, record.pool_id@, record.id@, j as int) && after
                == positions.update(j as int, record),
            None => (forall|j: int| !holds_position(positions, record.pool_id@, record.id@, j)) && after
                == positions.push(record),
        },
    ensures
        distinct_positions(after),
        positions_set(positions, after, record.pool_id@, record.id@, record.liquidity@),
        liquidity_in(positions, record.pool_id@, record.id@) <= liquidity_sum(positions, record.pool_id@),
        forall|id: Seq<u8>| #[trigger]
            liquidity_sum(after, id) == if id == record.pool_id@ {
                liquidity_sum(positions, id) - liquidity_in(positions, record.pool_id@, record.id@)
                    + record.liquidity@
            } else {
                liquidity_sum(positions, id) as int
            },
{
    match slot {
        Some(j) => {
            lemma_position_read(positions, record.pool_id@, record.id@, j as int);
            lemma_position_replaced(positions, j as int, record);
            lemma_sum_covers(positions, j as int);
            assert forall|id: Seq<u8>| #[trigger]
                liquidity_sum(after, id) == if id == record.pool_id@ {
                    liquidity_sum(positions, id) - liquidity_in(positions, record.pool_id@, record.id@)
                        + record.liquidity@
                } else {
                    liquidity_sum(positions, id) as int
                } by {
                lemma_sum_replaced(positions, j as int, record, id);
            }
        },
        None => {
            lemma_position_added(positions, record);
            assert forall|id: Seq<u8>| #[trigger]
                liquidity_sum(after, id) == if id == record.pool_id@ {
                    liquidity_sum(positions, id) - liquidity_in(positions, record.pool_id@, record.id@)
                        + record.liquidity@
                } else {
                    liquidity_sum(positions, id) as int
                } by {
                lemma_sum_added(positions, record, id);
            }
        },
    }
}

/// The ledger: all pools and all positions.
pub struct StylusSwap {
    pools: Vec<Pool>,
    positions: Vec<Position>,
}

impl StylusSwap {
    /// The pool records.
    pub closed spec fn pools(&self) -> Seq<Pool> {
        self.pools@
    }

    /// The position records.
    pub closed spec fn positions(&self) -> Seq<Position> {
        self.positions@
    }

    /// The pool stored under `id`, or the vacant pool.
    pub open spec fn pool(&self, id: Seq<u8>) -> PoolState {
        pool_in(self.pools(), id)
    }

    /// The liquidity that `owner` holds in pool `pool_id`.
    pub open spec fn position(&self, pool_id: B256, owner: Address) -> nat {
        liquidity_in(self.positions(), pool_id@, position_id_of(pool_id, owner))
    }

    /// Both ledgers hold the same records.
    pub open spec fn same_as(&self, other: &StylusSwap) -> bool {
        self.pools() == other.pools() && self.positions() == other.positions()
    }

    /// Keys are unique; a pool that is not open holds nothing; and the
    /// liquidity of every pool is the sum over its positions plus what is
    /// locked.
    pub open spec fn wf(&self) -> bool {
        &&& distinct_pools(self.pools())
        &&& distinct_positions(self.positions())
        &&& forall|id: Seq<u8>|
            #![trigger pool_in(self.pools(), id)]
            #![trigger liquidity_sum(self.positions(), id)]
            {
                let pool = pool_in(self.pools(), id);
                &&& pool.liquidity == liquidity_sum(self.positions(), id) + locked(pool.liquidity)
                &&& !pool.is_open() ==> pool.liquidity == 0 && pool.balance0 == 0 && pool.balance1 == 0
            }
    }

    /// A ledger without pools.
    pub fn new() -> (r: StylusSwap)
        ensures
            r.wf(),
            r.pools().len() == 0,
            r.positions().len() == 0,
    {
        StylusSwap { pools: Vec::new(), positions: Vec::new() }
    }

    /// The index of the pool record with key `id`.
    fn find_pool(&self, id: &B256) -> (r: Option<usize>)
        ensures
            match r {
                Some(i) => holds_pool(self.pools(), id@, i as int),
                None => forall|i: int| !holds_pool(self.pools(), id@, i),
            },
    {
        let mut i: usize = 0;
        while i < self.pools.len()
            invariant
                0 <= i <= self.pools@.len(),
                forall|k: int| 0 <= k < i ==> !holds_pool(self.pools@, id@, k),
            decreases self.pools@.len() - i,
        {
            if self.pools[i].id.same(id) {
                return Some(i);
            }
            i = i + 1;
        }
        None
    }

    /// The index of the position record with key `id` in pool `pool_id`.
    fn find_position(&self, pool_id: &B256, id: &B256) -> (r: Option<usize>)
        ensures
            match r {
                Some(j) => holds_position(self.positions(), pool_id@, id@, j as int),
                None => forall|j: int| !holds_position(self.positions(), pool_id@, id@, j),
            },
    {
        let mut j: usize = 0;
        while j < self.positions.len()
            invariant
                0 <= j <= self.positions@.len(),
                forall|k: int| 0 <= k < j ==> !holds_position(self.positions@, pool_id@, id@, k),
            decreases self.positions@.len() - j,
        {
            if self.positions[j].pool_id.same(pool_id) && self.positions[j].id.same(id) {
                return Some(j);
            }
            j = j + 1;
        }
        None
    }

    /// Where the pool with key `id` is stored, and its record; where none
    /// is, the record that holds nothing.
    fn read_pool(&self, id: &B256) -> (r: (Option<usize>, Pool))
        requires
            self.wf(),
        ensures
            r.1.id == *id,
            r.1@ == self.pool(id@),
            match r.0 {
                Some(i) => holds_pool(self.pools(), id@, i as int),
                None => forall|i: int| !holds_pool(self.pools(), id@, i),
            },
    {
        match self.find_pool(id) {
            Some(i) => {
                proof {
                    crate::address::lemma_hash_by_view(self.pools@[i as int].id, *id);
                    lemma_pool_read(self.pools@, id@, i as int);
                }
                (Some(i), self.pools[i])
            },
            None => (None, Pool::vacant(*id)),
        }
    }

    /// Where the position with key `id` in pool `pool_id` is stored, and its
    /// liquidity; where none is, zero.
    fn read_position(&self, pool_id: &B256, id: &B256) -> (r: (Option<usize>, U256))
        requires
            self.wf(),
        ensures
            r.1@ == liquidity_in(self.positions(), pool_id@, id@),
            r.1@ <= liquidity_sum(self.positions(), pool_id@),
            match r.0 {
                Some(j) => holds_position(self.positions(), pool_id@, id@, j as int),
                None => forall|j: int| !holds_position(self.positions(), pool_id@, id@, j),
            },
    {
        match self.find_position(pool_id, id) {
            Some(j) => {
                proof {
                    lemma_position_read(self.positions@, pool_id@, id@, j as int);
                    lemma_sum_covers(self.positions@, j as int);
                }
                (Some(j), self.positions[j].liquidity)
            },
            None => (None, U256::zero()),
        }
    }

    /// Stores a pool record: in place of the one with its key, or as a new one.
    fn write_pool(&mut self, slot: Option<usize>, record: Pool)
        requires
            distinct_pools(old(self).pools()),
            match slot {
                Some(i) => holds_pool(old(self).pools(), record.id@, i as int),
                None => forall|i: int| !holds_pool(old(self).pools(), record.id@, i),
            },
        ensures
            distinct_pools(final(self).pools()),
            pools_set(old(self).pools(), final(self).pools(), record.id@, record@),
            final(self).positions() == old(self).positions(),
    {
        match slot {
            Some(i) => {
                proof {
                    lemma_pool_replaced(self.pools@, i as int, record);
                }
                self.pools.set(i, record);
            },
            None => {
                proof {
                    lemma_pool_added(self.pools@, record);
                }
                self.pools.push(record);
            },
        }
    }

    /// Stores a position record: in place of the one with its key, or as a
    /// new one.
    fn write_position(&mut self, slot: Option<usize>, record: Position)
        requires
            distinct_positions(old(self).positions()),
            match slot {
                Some(j) => holds_position(old(self).positions(), record.pool_id@, record.id@, j as int),
                None => forall|j: int| !holds_position(old(self).positions(), record.pool_id@, record.id@, j),
            },
        ensures
            distinct_positions(final(self).positions()),
            positions_set(
                old(self).positions(),
                final(self).positions(),
                record.pool_id@,
                record.id@,
                record.liquidity@,
            ),
            forall|id: Seq<u8>| #[trigger]
                liquidity_sum(final(self).positions(), id) == if id == record.pool_id@ {
                    liquidity_sum(old(self).positions(), id) - liquidity_in(
                        old(self).positions(),
                        record.pool_id@,
                        record.id@,
                    ) + record.liquidity@
                } else {
                    liquidity_sum(old(self).positions(), id) as int
                },
            final(self).pools() == old(self).pools(),
    {
        let ghost before = self.positions@;
        match slot {
            Some(j) => self.positions.set(j, record),
            None => self.positions.push(record),
        }
        proof {
            lemma_position_written(before, self.positions@, slot, record);
        }
    }

    /// The key of the pool of two assets at a fee, with the assets in
    /// ascending order.
    pub fn get_pool_id(&self, token_a: Address, token_b: Address, fee: u32) -> (r: (B256, Address, Address))
        requires
            fee <= MAX_FEE,
        ensures
            r.0@ == pool_id_of(token_a, token_b, fee),
            (r.1, r.2) == token_pair(token_a, token_b),
    {
        derive_pool_id(token_a, token_b, fee)
    }

    /// The key of an owner's position in a pool.
    pub fn get_position_id(&self, pool_id: B256, owner: Address) -> (r: B256)
        ensures
            r@ == position_id_of(pool_id, owner),
    {
        derive_position_id(pool_id, owner)
    }

    /// The amounts of a deposit that a pool with the given reserves accepts.
    pub fn get_liquidity_amounts(
        &self,
        amount_0_desired: U256,
        amount_1_desired: U256,
        amount_0_min: U256,
        amount_1_min: U256,
        balance_0: U256,
        balance_1: U256,
    ) -> (r: Result<(U256, U256), StylusSwapError>)
        ensures
            pair_is(
                r,
                liquidity_amounts(
                    amount_0_desired@,
                    amount_1_desired@,
                    amount_0_min@,
                    amount_1_min@,
                    balance_0@,
                    balance_1@,
                ),
            ),
    {
        compute_liquidity_amounts(
            amount_0_desired,
            amount_1_desired,
            amount_0_min,
            amount_1_min,
            balance_0,
            balance_1,
        )
    }

    /// The pool stored under `pool_id`; where none is, a record that holds
    /// nothing.
    pub fn get_pool(&self, pool_id: B256) -> (r: Pool)
        requires
            self.wf(),
        ensures
            r@ == self.pool(pool_id@),
            r.id == pool_id,
    {
        self.read_pool(&pool_id).1
    }

    /// The liquidity that `owner` holds in pool `pool_id`.
    pub fn get_position_liquidity(&self, pool_id: B256, owner: Address) -> (r: U256)
        requires
            self.wf(),
        ensures
            r@ == self.position(pool_id, owner),
    {
        let position_id = derive_position_id(pool_id, owner);
        self.read_position(&pool_id, &position_id).1
    }

    /// Creates the pool of two assets at a fee, empty. It is refused where
    /// that pool is open already.
    pub fn create_pool(&mut self, token_a: Address, token_b: Address, fee: u32) -> (r: Result<
        PoolCreated,
        StylusSwapError,
    >)
        requires
            old(self).wf(),
            fee <= MAX_FEE,
        ensures
            final(self).wf(),
            r is Err <==> old(self).pool(pool_id_of(token_a, token_b, fee)).is_open(),
            match r {
                Ok(receipt) => {
                    &&& receipt.pool_id@ == pool_id_of(token_a, token_b, fee)
                    &&& (receipt.token0, receipt.token1) == token_pair(token_a, token_b)
                    &&& receipt.fee == fee
                    &&& pools_set(
                        old(self).pools(),
                        final(self).pools(),
                        receipt.pool_id@,
                        created(receipt.token0, receipt.token1, fee),
                    )
                    &&& final(self).positions() == old(self).positions()
                },
                Err(e) => {
                    &&& e matches StylusSwapError::PoolAlreadyExists(id)
                    &&& id@ == pool_id_of(token_a, token_b, fee)
                    &&& final(self).same_as(old(self))
                },
            },
    {
        let (pool_id, token0, token1) = derive_pool_id(token_a, token_b, fee);
        let (slot, existing) = self.read_pool(&pool_id);
        let (record, receipt) = match existing.create_pool(token0, token1, fee) {
            Ok(done) => done,
            Err(e) => { return Err(e); },
        };
        self.write_pool(slot, record);
        Ok(receipt)
    }

    /// Deposits into a pool for `caller`: takes the amounts that match the
    /// pool's reserves, mints liquidity to the pool and credits the caller.
    pub fn add_liquidity(
        &mut self,
        caller: Address,
        pool_id: B256,
        amount_0_desired: U256,
        amount_1_desired: U256,
        amount_0_min: U256,
        amount_1_min: U256,
    ) -> (r: Result<LiquidityMinted, StylusSwapError>)
        requires
            old(self).wf(),
        ensures
            final(self).wf(),
            match deposit(
                old(self).pool(pool_id@),
                old(self).position(pool_id, caller),
                pool_id,
                amount_0_desired@,
                amount_1_desired@,
                amount_0_min@,
                amount_1_min@,
            ) {
                Ok(done) => {
                    &&& r is Ok
                    &&& minted_is(r->Ok_0, pool_id, caller, done)
                    &&& pools_set(old(self).pools(), final(self).pools(), pool_id@, done.pool)
                    &&& positions_set(
                        old(self).positions(),
                        final(self).positions(),
                        pool_id@,
                        position_id_of(pool_id, caller),
                        done.position,
                    )
                },
                Err(e) => r == Err::<LiquidityMinted, StylusSwapError>(e) && final(self).same_as(old(self)),
            },
    {
        let (slot, pool) = self.read_pool(&pool_id);
        let position_id = derive_position_id(pool_id, caller);
        let (held_at, held) = self.read_position(&pool_id, &position_id);
        let (record, position, receipt) = match pool.add_liquidity(
            held,
            caller,
            amount_0_desired,
            amount_1_desired,
            amount_0_min,
            amount_1_min,
        ) {
            Ok(done) => done,
            Err(e) => { return Err(e); },
        };
        self.write_pool(slot, record);
        self.write_position(held_at, Position { pool_id, id: position_id, owner: caller, liquidity: position });
        Ok(receipt)
    }

    /// Withdraws `liquidity_to_remove` of what `caller` holds in a pool: the
    /// pool pays the same share of each reserve and loses that liquidity.
    pub fn remove_liquidity(&mut self, caller: Address, pool_id: B256, liquidity_to_remove: U256) -> (r: Result<
        LiquidityBurned,
        StylusSwapError,
    >)
        requires
            old(self).wf(),
        ensures
            final(self).wf(),
            match withdrawal(
                old(self).pool(pool_id@),
                old(self).position(pool_id, caller),
                pool_id,
                liquidity_to_remove@,
            ) {
                Ok(done) => {
                    &&& r is Ok
                    &&& burned_is(r->Ok_0, pool_id, caller, liquidity_to_remove, done)
                    &&& pools_set(old(self).pools(), final(self).pools(), pool_id@, done.pool)
                    &&& positions_set(
                        old(self).positions(),
                        final(self).positions(),
                        pool_id@,
                        position_id_of(pool_id, caller),
                        done.position,
                    )
                },
                Err(e) => r == Err::<LiquidityBurned, StylusSwapError>(e) && final(self).same_as(old(self)),
            },
    {
        let (slot, pool) = self.read_pool(&pool_id);
        let position_id = derive_position_id(pool_id, caller);
        let (held_at, held) = self.read_position(&pool_id, &position_id);
        let (record, position, receipt) = match pool.remove_liquidity(held, caller, liquidity_to_remove) {
            Ok(done) => done,
            Err(e) => { return Err(e); },
        };
        self.write_pool(slot, record);
        self.write_position(held_at, Position { pool_id, id: position_id, owner: caller, liquidity: position });
        Ok(receipt)
    }

    /// Swaps `input_amount` of one asset of a pool for the other, for `caller`.
    /// The pool's reserves change by what comes in and what is paid out.
    pub fn swap(
        &mut self,
        caller: Address,
        pool_id: B256,
        input_amount: U256,
        min_output_amount: U256,
        zero_for_one: bool,
    ) -> (r: Result<Swap, StylusSwapError>)
        requires
            old(self).wf(),
        ensures
            final(self).wf(),
            final(self).positions() == old(self).positions(),
            match exchange(old(self).pool(pool_id@), pool_id, input_amount@, min_output_amount@, zero_for_one) {
                Ok(done) => {
                    &&& r is Ok
                    &&& swap_is(r->Ok_0, pool_id, caller, input_amount, zero_for_one, done)
                    &&& pools_set(old(self).pools(), final(self).pools(), pool_id@, done.pool)
                },
                Err(e) => r == Err::<Swap, StylusSwapError>(e) && final(self).same_as(old(self)),
            },
    {
        let (slot, pool) = self.read_pool(&pool_id);
        let (record, receipt) = match pool.swap(caller, input_amount, min_output_amount, zero_for_one) {
            Ok(done) => done,
            Err(e) => { return Err(e); },
        };
        self.write_pool(slot, record);
        Ok(receipt)
    }
}

/// In a well-formed ledger the liquidity of every pool is the sum of the
/// liquidity of its positions plus what is locked: nothing before the first
/// deposit, the bootstrap lock ever after. No position holds more than its
/// pool has. Every operation leaves the ledger well-formed, so this holds
/// after any sequence of them.
pub proof fn lemma_liquidity_is_sum_of_positions(ledger: StylusSwap, pool_id: B256, owner: Address)
    requires
        ledger.wf(),
    ensures
        ledger.pool(pool_id@).liquidity == liquidity_sum(ledger.positions(), pool_id@) + locked(
            ledger.pool(pool_id@).liquidity,
        ),
        ledger.position(pool_id, owner) <= liquidity_sum(ledger.positions(), pool_id@),
        ledger.position(pool_id, owner) <= ledger.pool(pool_id@).liquidity,
{
    let positions = ledger.positions();
    let id = position_id_of(pool_id, owner);
    if exists|j: int| holds_position(positions, pool_id@, id, j) {
        let j = choose|j: int| holds_position(positions, pool_id@, id, j);
        lemma_sum_covers(positions, j);
    }
}

/// A deposit that is not the first adds to the pool's liquidity exactly what
/// it adds to the depositor's position. After the first deposit the pool's
/// liquidity is the depositor's position and the bootstrap lock.
pub proof fn lemma_deposit_conserves_liquidity(
    ledger: StylusSwap,
    caller: Address,
    pool_id: B256,
    desired0: nat,
    desired1: nat,
    min0: nat,
    min1: nat,
)
    requires
        ledger.wf(),
        deposit(
            ledger.pool(pool_id@),
            ledger.position(pool_id, caller),
            pool_id,
            desired0,
            desired1,
            min0,
            min1,
        ) is Ok,
    ensures
        ({
            let pool = ledger.pool(pool_id@);
            let position = ledger.position(pool_id, caller);
            let done = deposit(pool, position, pool_id, desired0, desired1, min0, min1)->Ok_0;
            &&& pool.liquidity != 0 ==> done.pool.liquidity - pool.liquidity == done.position - position
            &&& pool.liquidity == 0 ==> done.pool.liquidity == done.position + MINIMUM_LIQUIDITY
        }),
{
    lemma_liquidity_is_sum_of_positions(ledger, pool_id, caller);
}

/// A withdrawal pays of each asset the reserve times the liquidity withdrawn
/// over the pool's liquidity, rounded down, and takes exactly the liquidity
/// withdrawn, which is more than nothing, from the pool and from the position.
pub proof fn lemma_withdrawal_is_proportional(ledger: StylusSwap, caller: Address, pool_id: B256, liquidity: nat)
    requires
        ledger.wf(),
        withdrawal(ledger.pool(pool_id@), ledger.position(pool_id, caller), pool_id, liquidity) is Ok,
    ensures
        ({
            let pool = ledger.pool(pool_id@);
            let position = ledger.position(pool_id, caller);
            let done = withdrawal(pool, position, pool_id, liquidity)->Ok_0;
            &&& done.amount0 == pool.balance0 * liquidity / pool.liquidity
            &&& done.amount1 == pool.balance1 * liquidity / pool.liquidity
            &&& done.amount0 <= pool.balance0
            &&& done.amount1 <= pool.balance1
            &&& liquidity > 0
            &&& done.pool.liquidity + liquidity == pool.liquidity
            &&& done.position + liquidity == position
        }),
{
    let pool = ledger.pool(pool_id@);
    lemma_liquidity_is_sum_of_positions(ledger, pool_id, caller);
    lemma_withdrawal_within_reserves(pool.balance0, pool.balance1, liquidity, pool.liquidity);
}

} // verus!
