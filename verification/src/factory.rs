//! Discovery of the pools that the pool manager has created.
use vstd::prelude::*;

use crate::amm::AMM;
use crate::error::{AMMError, DecodeError};
use crate::events::{self, decode_initialize, Log, INITIALIZE_SIGNATURE_HASH};
use crate::pool::{PoolKey, UniswapV4Pool};
use crate::uniswap_v3::{Info, UniswapV3Pool};
use crate::word::{Address, B256, U256};

verus! {

/// How far past its first block a window of a log query reaches.
pub const SYNC_STEP: u64 = 100_000;

/// The pool manager, and the block from which on it can have created pools.
#[derive(Debug, Clone, Copy, PartialEq, Eq, Hash)]
pub struct UniswapV4Factory {
    pub address: Address,
    pub creation_block: u64,
}

/// A failure of the discovery: of a log query, or of a log that was found.
#[derive(Debug, Clone, Copy, PartialEq, Eq)]
pub enum DiscoveryError<E> {
    Query(E),
    Pool(AMMError),
}

/// A query for the logs that a contract emitted under a signature hash in a window of blocks, both
/// ends included.
#[derive(Debug, Clone, Copy, PartialEq, Eq)]
pub struct LogQuery {
    pub address: Address,
    pub event_signature: B256,
    pub from_block: u64,
    pub to_block: u64,
}

/// The windows of blocks, both ends included, in which logs are queried.
pub open spec fn scan_windows(from: int, end: int) -> Seq<(int, int)>
    decreases end + 1 - from,
{
    if from >= end {
        Seq::empty()
    } else {
        let to = if from + SYNC_STEP < end {
            from + SYNC_STEP
        } else {
            end
        };
        seq![(from, to)] + scan_windows(to + 1, end)
    }
}

/// Whether `pool` is the pool whose creation `log` announces.
pub open spec fn is_created_pool(pool: UniswapV4Pool, log: Log) -> bool {
    let currency0 = events::word_address(log.topics@[2]@);
    let currency1 = events::word_address(log.topics@[3]@);
    let fee = events::word_uint24(events::data_word(log.data@, 0));
    let tick_spacing = events::word_int24(events::data_word(log.data@, 1));
    let hooks = events::word_address(events::data_word(log.data@, 2));
    &&& pool.pool_key.currency0@ == currency0
    &&& pool.pool_key.currency1@ == currency1
    &&& pool.pool_key.fee == fee
    &&& pool.pool_key.tick_spacing == tick_spacing
    &&& pool.pool_key.hooks@ == hooks
    &&& pool.pool_id == log.topics@[1]
    &&& pool.pool_data.address == log.address
    &&& pool.pool_data.token_a.address@ == currency0
    &&& pool.pool_data.token_a.decimals == 0
    &&& pool.pool_data.token_b.address@ == currency1
    &&& pool.pool_data.token_b.decimals == 0
    &&& pool.pool_data.liquidity == 0
    &&& pool.pool_data.sqrt_price@ == events::word_uint160(events::data_word(log.data@, 3))
    &&& pool.pool_data.fee == fee
    &&& pool.pool_data.tick == events::word_int24(events::data_word(log.data@, 4))
    &&& pool.pool_data.tick_spacing == tick_spacing
    &&& pool.pool_data.tick_bitmap@ == Map::<i16, U256>::empty()
    &&& pool.pool_data.ticks@ == Map::<i32, Info>::empty()
    &&& pool.hooks@ == hooks
    &&& pool.protocol_fee == 0
    &&& pool.initialized
}

/// Whether `amm` is the pool whose creation `log` announces.
pub open spec fn is_created(amm: AMM, log: Log) -> bool {
    amm matches AMM::UniswapV4Pool(pool) && is_created_pool(pool, log)
}

/// The defect of the first of the logs that is not a pool's creation, if there is one.
pub open spec fn first_defect(logs: Seq<Log>) -> Option<DecodeError>
    decreases logs.len(),
{
    if logs.len() == 0 {
        None
    } else {
        match first_defect(logs.drop_last()) {
            Some(e) => Some(e),
            None => events::initialize_defect(logs.last()),
        }
    }
}

/// The logs that query results bring together, or the first failure among them.
pub open spec fn found_logs<E>(results: Seq<Result<Vec<Log>, E>>) -> Result<
    Seq<Log>,
    DiscoveryError<E>,
>
    decreases results.len(),
{
    if results.len() == 0 {
        Ok(Seq::empty())
    } else {
        match found_logs(results.drop_last()) {
            Err(e) => Err(e),
            Ok(logs) => match results.last() {
                Err(e) => Err(DiscoveryError::Query(e)),
                Ok(found) => match first_defect(found@) {
                    Some(e) => Err(DiscoveryError::Pool(AMMError::DecodeError(e))),
                    None => Ok(logs + found@),
                },
            },
        }
    }
}

/// What the discovery returns: a pool for each log that the results bring, in order, or the first
/// failure.
pub open spec fn discovery_outcome<E>(
    results: Seq<Result<Vec<Log>, E>>,
    r: Result<Vec<AMM>, DiscoveryError<E>>,
) -> bool {
    match found_logs(results) {
        Err(e) => r == Err::<Vec<AMM>, DiscoveryError<E>>(e),
        Ok(logs) => {
            &&& r is Ok
            &&& r->Ok_0@.len() == logs.len()
            &&& forall|i: int|
                0 <= i < logs.len() ==> is_created(#[trigger] r->Ok_0@[i], logs[i])
        },
    }
}

/// Whether `queries` ask for the creations of pools of a pool manager up to a block.
pub open spec fn queries_creations(
    factory: UniswapV4Factory,
    block_number: Option<u64>,
    queries: Seq<LogQuery>,
) -> bool {
    &&& queries.map_values(|q: LogQuery| (q.from_block as int, q.to_block as int))
        == scan_windows(
        factory.creation_block as int,
        match block_number {
            Some(n) => n as int,
            None => 0,
        },
    )
    &&& forall|i: int|
        0 <= i < queries.len() ==> (#[trigger] queries[i]).address == factory.address
            && queries[i].event_signature == INITIALIZE_SIGNATURE_HASH
}

impl UniswapV4Factory {
    /// The pool manager at `address`, created in block `creation_block`.
    pub fn new(address: Address, creation_block: u64) -> (r: UniswapV4Factory)
        ensures
            r.address == address,
            r.creation_block == creation_block,
    {
        UniswapV4Factory { address, creation_block }
    }

    /// The pool manager's address.
    pub fn address(&self) -> (r: Address)
        ensures
            r == self.address,
    {
        self.address
    }

    /// The signature hash of the event that announces a pool.
    pub fn pool_creation_event(&self) -> (r: B256)
        ensures
            r == INITIALIZE_SIGNATURE_HASH,
    {
        INITIALIZE_SIGNATURE_HASH
    }

    /// The block in which the pool manager was created.
    pub fn creation_block(&self) -> (r: u64)
        ensures
            r == self.creation_block,
    {
        self.creation_block
    }

    /// The pool that a log announces.
    pub fn create_pool(&self, log: &Log) -> (r: Result<AMM, AMMError>)
        ensures
            match events::initialize_defect(*log) {
                Some(e) => r == Err::<AMM, AMMError>(AMMError::DecodeError(e)),
                None => r is Ok && is_created(r->Ok_0, *log),
            },
    {
        let event = match decode_initialize(log) {
            Ok(event) => event,
            Err(e) => {
                return Err(AMMError::DecodeError(e));
            },
        };
        let mut pool_data = UniswapV3Pool::new(log.address);
        pool_data.token_a.address = event.currency0;
        pool_data.token_b.address = event.currency1;
        pool_data.fee = event.fee;
        pool_data.tick_spacing = event.tick_spacing;
        pool_data.sqrt_price = event.sqrt_price_x96;
        pool_data.tick = event.tick;
        Ok(
            AMM::UniswapV4Pool(
                UniswapV4Pool {
                    pool_key: PoolKey {
                        currency0: event.currency0,
                        currency1: event.currency1,
                        fee: event.fee,
                        tick_spacing: event.tick_spacing,
                        hooks: event.hooks,
                    },
                    pool_id: event.id,
                    pool_data,
                    hooks: event.hooks,
                    protocol_fee: 0,
                    initialized: true,
                },
            ),
        )
    }

    /// The queries for the creations of pools up to the block `block_number`. Where the block has
    /// no number there are none.
    pub fn log_queries(&self, block_number: Option<u64>) -> (r: Vec<LogQuery>)
        ensures
            queries_creations(*self, block_number, r@),
    {
        let last_block: u64 = match block_number {
            Some(n) => n,
            None => 0,
        };
        let ghost window = |q: LogQuery| (q.from_block as int, q.to_block as int);
        let ghost all = scan_windows(self.creation_block as int, last_block as int);
        let mut r: Vec<LogQuery> = Vec::new();
        let mut latest_block: u64 = self.creation_block;
        assert(r@.map_values(window) + all =~= all);
        while latest_block < last_block
            invariant
                window == (|q: LogQuery| (q.from_block as int, q.to_block as int)),
                all == scan_windows(self.creation_block as int, last_block as int),
                all == r@.map_values(window) + scan_windows(
                    latest_block as int,
                    last_block as int,
                ),
                last_block == match block_number {
                    Some(n) => n as int,
                    None => 0,
                },
                forall|i: int|
                    0 <= i < r@.len() ==> (#[trigger] r@[i]).address == self.address
                        && r@[i].event_signature == INITIALIZE_SIGNATURE_HASH,
            decreases last_block - latest_block,
        {
            let from_block: u64 = latest_block;
            let to_block: u64 = if last_block - from_block > SYNC_STEP {
                from_block + SYNC_STEP
            } else {
                last_block
            };
            let ghost before = r@;
            r.push(
                LogQuery {
                    address: self.address(),
                    event_signature: self.pool_creation_event(),
                    from_block,
                    to_block,
                },
            );
            proof {
                let w = (from_block as int, to_block as int);
                let rest = scan_windows(to_block + 1, last_block as int);
                assert(r@.map_values(window) =~= before.map_values(window).push(w));
                assert(before.map_values(window) + (seq![w] + rest) =~= before.map_values(
                    window,
                ).push(w) + rest);
            }
            if to_block == last_block {
                assert(scan_windows(last_block + 1, last_block as int) =~= Seq::empty());
                assert(all =~= r@.map_values(window));
                return r;
            }
            latest_block = to_block + 1;
        }
        assert(all =~= r@.map_values(window));
        r
    }

    /// The pools that the logs of the queries announce, in the order of the results. The first
    /// failed query or undecodable log ends the discovery.
    pub fn get_all_pools<E>(&self, results: Vec<Result<Vec<Log>, E>>) -> (r: Result<
        Vec<AMM>,
        DiscoveryError<E>,
    >)
        ensures
            discovery_outcome(results@, r),
    {
        let ghost all = results@;
        let mut pending = results;
        let mut pools: Vec<AMM> = Vec::new();
        let mut i: usize = 0;
        assert(all.take(0) =~= Seq::empty());
        while i < pending.len()
            invariant
                all == results@,
                pending@ == all,
                i <= all.len(),
                found_logs(all.take(i as int)) is Ok,
                pools@.len() == found_logs(all.take(i as int))->Ok_0.len(),
                forall|k: int|
                    0 <= k < pools@.len() ==> is_created(
                        #[trigger] pools@[k],
                        found_logs(all.take(i as int))->Ok_0[k],
                    ),
            decreases all.len() - i,
        {
            proof {
                assert(all.take(i + 1).drop_last() =~= all.take(i as int));
            }
            let defect: Option<DecodeError> = match &pending[i] {
                Ok(logs) => self.create_pools(logs, &mut pools),
                Err(_) => {
                    proof {
                        lemma_found_logs_error(all, i as int);
                    }
                    let failed = pending.swap_remove(i);
                    match failed {
                        Err(e) => {
                            return Err(DiscoveryError::Query(e));
                        },
                        Ok(_) => None,
                    }
                },
            };
            match defect {
                Some(e) => {
                    proof {
                        lemma_found_logs_error(all, i as int);
                    }
                    return Err(DiscoveryError::Pool(AMMError::DecodeError(e)));
                },
                None => {},
            }
            i = i + 1;
        }
        assert(all.take(all.len() as int) =~= all);
        Ok(pools)
    }

    /// Appends the pools that logs announce, up to the first log that does not decode.
    fn create_pools(&self, logs: &Vec<Log>, pools: &mut Vec<AMM>) -> (r: Option<DecodeError>)
        ensures
            r == first_defect(logs@),
            r is None ==> {
                &&& final(pools)@.len() == old(pools)@.len() + logs@.len()
                &&& forall|k: int|
                    0 <= k < old(pools)@.len() ==> #[trigger] final(pools)@[k] == old(pools)@[k]
                &&& forall|k: int|
                    old(pools)@.len() <= k < final(pools)@.len() ==> is_created(
                        #[trigger] final(pools)@[k],
                        logs@[k - old(pools)@.len()],
                    )
            },
    {
        let ghost before = pools@;
        let mut j: usize = 0;
        assert(logs@.take(0) =~= Seq::empty());
        while j < logs.len()
            invariant
                j <= logs@.len(),
                first_defect(logs@.take(j as int)) is None,
                pools@.len() == before.len() + j,
                forall|k: int| 0 <= k < before.len() ==> #[trigger] pools@[k] == before[k],
                forall|k: int|
                    before.len() <= k < pools@.len() ==> is_created(
                        #[trigger] pools@[k],
                        logs@[k - before.len()],
                    ),
            decreases logs@.len() - j,
        {
            proof {
                assert(logs@.take(j + 1).drop_last() =~= logs@.take(j as int));
            }
            match self.create_pool(&logs[j]) {
                Ok(pool) => {
                    pools.push(pool);
                },
                Err(AMMError::DecodeError(e)) => {
                    proof {
                        lemma_first_defect(logs@, j as int);
                    }
                    return Some(e);
                },
                Err(_) => {},
            }
            j = j + 1;
        }
        assert(logs@.take(logs@.len() as int) =~= logs@);
        None
    }
}

/// What the first logs fail on, all of them fail on.
proof fn lemma_first_defect(logs: Seq<Log>, j: int)
    requires
        0 <= j < logs.len(),
        first_defect(logs.take(j + 1)) is Some,
    ensures
        first_defect(logs) == first_defect(logs.take(j + 1)),
    decreases logs.len() - j,
{
    if j + 1 == logs.len() {
        assert(logs.take(j + 1) =~= logs);
    } else {
        assert(logs.drop_last().take(j + 1) =~= logs.take(j + 1));
        lemma_first_defect(logs.drop_last(), j);
    }
}

/// What the first results fail on, all of them fail on.
proof fn lemma_found_logs_error<E>(results: Seq<Result<Vec<Log>, E>>, i: int)
    requires
        0 <= i < results.len(),
        found_logs(results.take(i + 1)) is Err,
    ensures
        found_logs(results) == found_logs(results.take(i + 1)),
    decreases results.len() - i,
{
    if i + 1 == results.len() {
        assert(results.take(i + 1) =~= results);
    } else {
        assert(results.drop_last().take(i + 1) =~= results.take(i + 1));
        lemma_found_logs_error(results.drop_last(), i);
    }
}

/// The windows follow each other without gap or overlap from the first block on, all but the last
/// span the step and the last no more, and together they reach the block before the last or the last. They stop short
/// of the last block only where the distance to it is a multiple of a window's number of blocks.
pub proof fn law_windows_contiguous(from: int, end: int)
    requires
        from < end,
    ensures
        scan_windows(from, end).len() > 0,
        scan_windows(from, end)[0].0 == from,
        forall|i: int|
            0 <= i < scan_windows(from, end).len() ==> {
                let w = #[trigger] scan_windows(from, end)[i];
                from <= w.0 <= w.1 <= w.0 + SYNC_STEP && w.1 <= end
            },
        forall|i: int|
            0 <= i < scan_windows(from, end).len() - 1 ==> (#[trigger] scan_windows(
                from,
                end,
            )[i]).1 + 1 == scan_windows(from, end)[i + 1].0,
        forall|i: int|
            0 <= i < scan_windows(from, end).len() - 1 ==> (#[trigger] scan_windows(
                from,
                end,
            )[i]).1 == scan_windows(from, end)[i].0 + SYNC_STEP,
        scan_windows(from, end).last().1 == if (end - from) % (SYNC_STEP + 1) == 0 {
            end - 1
        } else {
            end
        },
    decreases end - from,
{
    let to = if from + SYNC_STEP < end {
        from + SYNC_STEP
    } else {
        end
    };
    let all = scan_windows(from, end);
    let rest = scan_windows(to + 1, end);
    assert(all == seq![(from, to)] + rest);
    assert(all[0] == (from, to));
    if to + 1 < end {
        law_windows_contiguous(to + 1, end);
        assert(all.last() == rest.last());
        assert forall|i: int| 0 < i < all.len() implies #[trigger] all[i] == rest[i - 1] by {}
        assert((end - from) % 100_001 == (end - (to + 1)) % 100_001);
        assert forall|i: int| 0 <= i < all.len() - 1 implies (#[trigger] all[i]).1 + 1 == all[i
            + 1].0 by {
            assert(all[i + 1] == rest[i]);
            if i > 0 {
                assert(rest[i - 1].1 + 1 == rest[i].0);
            }
        }
        assert forall|i: int| 0 <= i < all.len() - 1 implies (#[trigger] all[i]).1 == all[i].0
            + SYNC_STEP by {
            if i > 0 {
                assert(all[i] == rest[i - 1]);
            }
        }
    } else {
        assert(rest.len() == 0);
        assert(all.len() == 1);
    }
}

/// Every block from the first up to but not including the last is in exactly one window.
pub proof fn law_windows_cover(from: int, end: int, block: int)
    requires
        from <= block < end,
    ensures
        exists|i: int|
            0 <= i < scan_windows(from, end).len() && (#[trigger] scan_windows(from, end)[i]).0
                <= block <= scan_windows(from, end)[i].1,
        forall|i: int, j: int|
            0 <= i < scan_windows(from, end).len() && 0 <= j < scan_windows(from, end).len() && (
            #[trigger] scan_windows(from, end)[i]).0 <= block <= scan_windows(from, end)[i].1 && (
            #[trigger] scan_windows(from, end)[j]).0 <= block <= scan_windows(from, end)[j].1 ==> i
                == j,
    decreases end - from,
{
    let to = if from + SYNC_STEP < end {
        from + SYNC_STEP
    } else {
        end
    };
    let all = scan_windows(from, end);
    let rest = scan_windows(to + 1, end);
    assert(all == seq![(from, to)] + rest);
    assert(all[0] == (from, to));
    assert forall|i: int| 0 < i < all.len() implies #[trigger] all[i] == rest[i - 1] by {}
    if to + 1 < end {
        law_windows_contiguous(to + 1, end);
    }
    if block > to {
        law_windows_cover(to + 1, end, block);
        let k = choose|k: int|
            0 <= k < rest.len() && (#[trigger] rest[k]).0 <= block <= rest[k].1;
        assert(all[k + 1] == rest[k]);
        assert forall|i: int, j: int|
            0 <= i < all.len() && 0 <= j < all.len() && (#[trigger] all[i]).0 <= block <= all[i].1
                && (#[trigger] all[j]).0 <= block <= all[j].1 implies i == j by {
            assert(i > 0 && j > 0);
            assert(rest[i - 1].0 <= block <= rest[i - 1].1);
            assert(rest[j - 1].0 <= block <= rest[j - 1].1);
        }
    } else {
        assert forall|i: int|
            0 <= i < all.len() && (#[trigger] all[i]).0 <= block <= all[i].1 implies i == 0 by {
            if i > 0 {
                assert(rest[i - 1].0 >= to + 1);
            }
        }
    }
}

/// A pool that a creation announces is initialized, and where its tick spacing is not negative the
/// key that its data make up is the key that the creation announces.
pub proof fn law_created_pool_key(pool: UniswapV4Pool, log: Log)
    requires
        is_created_pool(pool, log),
        events::initialize_defect(log) is None,
        pool.pool_key.tick_spacing >= 0,
    ensures
        pool.initialized,
        pool.key_fits(),
        pool.key() == pool.pool_key,
{
    let fee_word = events::data_word(log.data@, 0);
    let spacing_word = events::data_word(log.data@, 1);
    vstd::arithmetic::power2::lemma2_to64();
    crate::word::lemma_be_value_bound(fee_word.skip(29));
    crate::word::lemma_be_value_bound(spacing_word.skip(29));
    assert(pool.key().currency0 =~= pool.pool_key.currency0);
    assert(pool.key().currency1 =~= pool.pool_key.currency1);
    assert(pool.key().hooks =~= pool.pool_key.hooks);
}

} // verus!
