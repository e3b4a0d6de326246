//! The steps in which pools are synchronized with the pool manager's storage.
use vstd::prelude::*;

use crate::amm::AMM;
use crate::factory::UniswapV4Factory;
use crate::pool::UniswapV4Pool;
use crate::sync;
use crate::tick_sync::{self, TickDataQuery};
use crate::word::{Address, B256};

verus! {

/// What is read next.
#[derive(Debug, Clone, Copy, PartialEq, Eq)]
pub enum Stage {
    /// Each pool's first state word.
    Slot0,
    /// The decimals of the pools' tokens.
    TokenDecimals,
    /// The bitmaps of initialized ticks.
    TickBitmap,
    /// The liquidity at the initialized ticks.
    TickData,
    /// Nothing: the pools are synchronized.
    Synced,
}

/// A synchronization under way: the pools as far as they are known, and what is read next.
#[derive(Debug, Clone)]
pub struct PoolSync {
    pub pools: Vec<UniswapV4Pool>,
    pub stage: Stage,
}

/// The pools of the singleton pool manager among pools of any protocol.
pub open spec fn v4_pools(amms: Seq<AMM>) -> Seq<UniswapV4Pool>
    decreases amms.len(),
{
    if amms.len() == 0 {
        Seq::empty()
    } else {
        let before = v4_pools(amms.drop_last());
        match amms.last() {
            AMM::UniswapV4Pool(pool) => before.push(pool),
            _ => before,
        }
    }
}

/// Whether a pool already has active liquidity and the decimals of both tokens.
pub open spec fn is_populated(pool: UniswapV4Pool) -> bool {
    pool.pool_data.liquidity > 0 && pool.pool_data.token_a.decimals > 0
        && pool.pool_data.token_b.decimals > 0
}

/// The pools whose ticks are still to be read, in order.
pub open spec fn unpopulated(pools: Seq<UniswapV4Pool>) -> Seq<UniswapV4Pool>
    decreases pools.len(),
{
    if pools.len() == 0 {
        Seq::empty()
    } else {
        let before = unpopulated(pools.drop_last());
        if is_populated(pools.last()) {
            before
        } else {
            before.push(pools.last())
        }
    }
}

/// Whether `after` holds the pools of `before` with the decimals that a list gives for their tokens,
/// without those that are then populated.
pub open spec fn decimals_taken(
    before: Seq<UniswapV4Pool>,
    after: Seq<UniswapV4Pool>,
    token_decimals: Seq<(Address, u8)>,
) -> bool {
    after == unpopulated(
        before.map_values(|p: UniswapV4Pool| sync::with_decimals(p, token_decimals)),
    )
}

impl UniswapV4Factory {
    /// Begins the synchronization of the pools of the singleton pool manager; pools of other
    /// protocols are left out.
    pub fn sync_all_pools(amms: Vec<AMM>) -> (r: PoolSync)
        ensures
            r.pools@ == v4_pools(amms@),
            r.stage == Stage::Slot0,
    {
        let ghost all = amms@;
        let mut pools: Vec<UniswapV4Pool> = Vec::new();
        assert(all.take(0) =~= Seq::empty());
        for amm in it: amms
            invariant
                it.seq() == all,
                pools@ == v4_pools(all.take(it.index())),
        {
            proof {
                assert(all.take(it.index() + 1).drop_last() =~= all.take(it.index()));
            }
            match amm {
                AMM::UniswapV4Pool(pool) => {
                    pools.push(pool);
                },
                _ => {},
            }
        }
        assert(all.take(all.len() as int) =~= all);
        PoolSync { pools, stage: Stage::Slot0 }
    }
}

impl PoolSync {
    /// Takes the first state words over.
    pub fn slot_0_read<E>(&mut self, results: Vec<Result<B256, E>>) -> (r: Result<(), E>)
        requires
            old(self).stage == Stage::Slot0,
        ensures
            sync::slot_0_synced(old(self).pools@, final(self).pools@, results@),
            sync::outcome(results@, old(self).pools@.len() as int, r),
            final(self).stage == if r is Ok {
                Stage::TokenDecimals
            } else {
                Stage::Slot0
            },
    {
        match UniswapV4Factory::sync_slot_0(&mut self.pools, results) {
            Ok(()) => {
                self.stage = Stage::TokenDecimals;
                Ok(())
            },
            Err(e) => Err(e),
        }
    }

    /// Takes the tokens' decimals over and drops the pools that are populated. A failed query
    /// changes nothing.
    pub fn token_decimals_read<E>(&mut self, result: Result<Vec<(Address, u8)>, E>) -> (r: Result<
        (),
        E,
    >)
        requires
            old(self).stage == Stage::TokenDecimals,
        ensures
            match result {
                Err(e) => r == Err::<(), E>(e) && *final(self) == *old(self),
                Ok(token_decimals) => {
                    &&& r is Ok
                    &&& final(self).stage == Stage::TickBitmap
                    &&& decimals_taken(old(self).pools@, final(self).pools@, token_decimals@)
                },
            },
    {
        match result {
            Err(e) => Err(e),
            Ok(token_decimals) => {
                let mut pools: Vec<UniswapV4Pool> = Vec::new();
                std::mem::swap(&mut pools, &mut self.pools);
                UniswapV4Factory::sync_token_decimals(&mut pools, &token_decimals);
                self.pools = keep_unpopulated(pools);
                self.stage = Stage::TickBitmap;
                Ok(())
            },
        }
    }

    /// Takes the bitmaps over.
    pub fn tick_bitmap_read<E>(&mut self, results: Vec<Result<Vec<Vec<B256>>, E>>) -> (r: Result<
        (),
        E,
    >)
        requires
            old(self).stage == Stage::TickBitmap,
            forall|i: int|
                0 <= i < sync::taken(results@, old(self).pools@.len() as int) ==> (
                #[trigger] old(self).pools@[i]).pool_data.tick_spacing != 0,
        ensures
            tick_sync::bitmaps_synced(old(self).pools@, final(self).pools@, results@),
            sync::outcome(results@, old(self).pools@.len() as int, r),
            final(self).stage == if r is Ok {
                Stage::TickData
            } else {
                Stage::TickBitmap
            },
    {
        match UniswapV4Factory::sync_tick_bitmap(&mut self.pools, results) {
            Ok(()) => {
                self.stage = Stage::TickData;
                Ok(())
            },
            Err(e) => Err(e),
        }
    }

    /// Takes the tick data over.
    pub fn tick_data_read<E>(
        &mut self,
        queries: &Vec<TickDataQuery>,
        results: Vec<Result<Vec<Vec<B256>>, E>>,
    ) -> (r: Result<(), E>)
        requires
            old(self).stage == Stage::TickData,
            tick_sync::queries_ordered(queries@, old(self).pools@.len() as int),
            forall|i: int|
                0 <= i < queries@.len() && i < results@.len() && results@[i] is Ok
                    ==> tick_sync::answers_filled(
                    (#[trigger] queries@[i]).ticks@,
                    results@[i]->Ok_0@,
                ),
        ensures
            tick_sync::tick_data_synced(
                old(self).pools@,
                final(self).pools@,
                queries@,
                results@,
            ),
            sync::outcome(results@, queries@.len() as int, r),
            final(self).stage == if r is Ok {
                Stage::Synced
            } else {
                Stage::TickData
            },
    {
        match UniswapV4Factory::sync_tick_data(&mut self.pools, queries, results) {
            Ok(()) => {
                self.stage = Stage::Synced;
                Ok(())
            },
            Err(e) => Err(e),
        }
    }

    /// The synchronized pools.
    pub fn into_amms(self) -> (r: Vec<AMM>)
        requires
            self.stage == Stage::Synced,
        ensures
            r@ == self.pools@.map_values(|p: UniswapV4Pool| AMM::UniswapV4Pool(p)),
    {
        let ghost wrap = |p: UniswapV4Pool| AMM::UniswapV4Pool(p);
        let ghost all = self.pools@;
        let mut r: Vec<AMM> = Vec::new();
        assert(r@ =~= all.take(0).map_values(wrap));
        for pool in it: self.pools
            invariant
                it.seq() == all,
                wrap == (|p: UniswapV4Pool| AMM::UniswapV4Pool(p)),
                r@ == all.take(it.index()).map_values(wrap),
        {
            r.push(AMM::UniswapV4Pool(pool));
            assert(r@ =~= all.take(it.index() + 1).map_values(wrap));
        }
        assert(all.take(all.len() as int) =~= all);
        r
    }
}

/// The pools that are not populated.
fn keep_unpopulated(pools: Vec<UniswapV4Pool>) -> (r: Vec<UniswapV4Pool>)
    ensures
        r@ == unpopulated(pools@),
{
    let ghost all = pools@;
    let mut r: Vec<UniswapV4Pool> = Vec::new();
    assert(all.take(0) =~= Seq::empty());
    for pool in it: pools
        invariant
            it.seq() == all,
            r@ == unpopulated(all.take(it.index())),
    {
        proof {
            assert(all.take(it.index() + 1).drop_last() =~= all.take(it.index()));
        }
        let populated = pool.pool_data.liquidity > 0 && pool.pool_data.token_a.decimals > 0
            && pool.pool_data.token_b.decimals > 0;
        if !populated {
            r.push(pool);
        }
    }
    assert(all.take(all.len() as int) =~= all);
    r
}

/// The pools whose ticks are read are just those that are not populated.
pub proof fn law_unpopulated_exact(pools: Seq<UniswapV4Pool>)
    ensures
        unpopulated(pools).len() <= pools.len(),
        forall|p: UniswapV4Pool|
            #[trigger] unpopulated(pools).contains(p) <==> pools.contains(p) && !is_populated(p),
    decreases pools.len(),
{
    let kept = unpopulated(pools);
    if pools.len() > 0 {
        let rest = pools.drop_last();
        let before = unpopulated(rest);
        law_unpopulated_exact(rest);
        assert forall|p: UniswapV4Pool| #[trigger]
            kept.contains(p) <==> pools.contains(p) && !is_populated(p) by {
            assert(before.contains(p) <==> rest.contains(p) && !is_populated(p));
            if kept.contains(p) {
                let k = choose|k: int| 0 <= k < kept.len() && kept[k] == p;
                if k < before.len() {
                    assert(before[k] == p);
                    assert(before.contains(p));
                    let i = choose|i: int| 0 <= i < rest.len() && rest[i] == p;
                    assert(pools[i] == p);
                } else {
                    assert(pools[pools.len() - 1] == p);
                }
            }
            if pools.contains(p) && !is_populated(p) {
                let i = choose|i: int| 0 <= i < pools.len() && pools[i] == p;
                if i < rest.len() {
                    assert(rest[i] == p);
                    assert(before.contains(p));
                    let k = choose|k: int| 0 <= k < before.len() && before[k] == p;
                    assert(kept[k] == p);
                } else {
                    assert(kept[kept.len() - 1] == p);
                }
            }
        }
    }
}

/// Whether two pools are the same one: of one pool manager, with one identifier, key and hook
/// contract, the same tokens and the same tick spacing.
pub open spec fn same_identity(a: UniswapV4Pool, b: UniswapV4Pool) -> bool {
    &&& a.pool_key == b.pool_key
    &&& a.pool_id == b.pool_id
    &&& a.hooks == b.hooks
    &&& a.initialized == b.initialized
    &&& a.pool_data.address == b.pool_data.address
    &&& a.pool_data.token_a.address == b.pool_data.token_a.address
    &&& a.pool_data.token_b.address == b.pool_data.token_b.address
    &&& a.pool_data.tick_spacing == b.pool_data.tick_spacing
}

/// Whatever the state words are, and whether or not a query failed, each pool keeps its place and
/// its identity.
pub proof fn law_slot_0_keeps_identity<E>(
    before: Seq<UniswapV4Pool>,
    after: Seq<UniswapV4Pool>,
    results: Seq<Result<B256, E>>,
)
    requires
        sync::slot_0_synced(before, after, results),
    ensures
        after.len() == before.len(),
        forall|i: int| 0 <= i < before.len() ==> same_identity(before[i], #[trigger] after[i]),
{
    let k = sync::taken(results, before.len() as int);
    assert forall|i: int| 0 <= i < before.len() implies same_identity(
        before[i],
        #[trigger] after[i],
    ) by {
        if i < k {
            assert(sync::slot_0_applied(before[i], after[i], results[i]->Ok_0@));
        }
    }
}

/// Taking decimals over keeps a pool's identity.
pub proof fn law_decimals_keep_identity(pool: UniswapV4Pool, token_decimals: Seq<(Address, u8)>)
    ensures
        same_identity(pool, sync::with_decimals(pool, token_decimals)),
{
}

/// Whatever the bitmap words are, and whether or not a query failed, each pool keeps its place and
/// its identity.
pub proof fn law_bitmaps_keep_identity<E>(
    before: Seq<UniswapV4Pool>,
    after: Seq<UniswapV4Pool>,
    results: Seq<Result<Vec<Vec<B256>>, E>>,
)
    requires
        tick_sync::bitmaps_synced(before, after, results),
    ensures
        after.len() == before.len(),
        forall|i: int| 0 <= i < before.len() ==> same_identity(before[i], #[trigger] after[i]),
{
    let k = sync::taken(results, before.len() as int);
    assert forall|i: int| 0 <= i < before.len() implies same_identity(
        before[i],
        #[trigger] after[i],
    ) by {
        if i < k {
            assert(tick_sync::bitmap_applied(before[i], after[i], results[i]->Ok_0@));
        }
    }
}

/// Whatever the tick data are, and whether or not a query failed, each pool keeps its place and
/// its identity.
pub proof fn law_tick_data_keep_identity<E>(
    before: Seq<UniswapV4Pool>,
    after: Seq<UniswapV4Pool>,
    queries: Seq<TickDataQuery>,
    results: Seq<Result<Vec<Vec<B256>>, E>>,
)
    requires
        tick_sync::tick_data_synced(before, after, queries, results),
    ensures
        after.len() == before.len(),
        forall|i: int| 0 <= i < before.len() ==> same_identity(before[i], #[trigger] after[i]),
{
    let k = sync::taken(results, queries.len() as int);
    assert forall|p: int| 0 <= p < before.len() implies same_identity(
        before[p],
        #[trigger] after[p],
    ) by {
        if exists|i: int| 0 <= i < k && (#[trigger] queries[i]).pool == p {
            let i = choose|i: int| 0 <= i < k && (#[trigger] queries[i]).pool == p;
            assert(tick_sync::tick_data_applied(
                before[queries[i].pool as int],
                after[queries[i].pool as int],
                queries[i].ticks@,
                results[i]->Ok_0@,
            ));
        }
    }
}

} // verus!
