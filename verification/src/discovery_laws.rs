//! What the discovery of pools asks for, and what it makes of the logs that it finds.
use vstd::arithmetic::power2::*;
use vstd::prelude::*;

use crate::amm::AMM;
use crate::error::AMMError;
use crate::events::{self, Log, INITIALIZE_SIGNATURE_HASH};
use crate::factory::{self, DiscoveryError, LogQuery, UniswapV4Factory};
use crate::pool::UniswapV4Pool;
use crate::word;

verus! {

/// A created pool takes its identifier and its two currencies from the log's topics, its fee, tick
/// spacing, hook contract, price and tick, each from a word of its own, from the log's data, and its
/// address from the log. Nothing else of it is known yet.
pub proof fn law_created_pool_bytes(pool: UniswapV4Pool, log: Log)
    requires
        factory::is_created_pool(pool, log),
        log.topics@.len() == 4,
        log.data@.len() >= 160,
    ensures
        pool.initialized,
        pool.pool_id == log.topics@[1],
        pool.pool_data.address == log.address,
        forall|j: int| 0 <= j < 20 ==> #[trigger] pool.pool_key.currency0@[j] == log.topics@[2]@[12 + j],
        forall|j: int| 0 <= j < 20 ==> #[trigger] pool.pool_key.currency1@[j] == log.topics@[3]@[12 + j],
        forall|j: int| 0 <= j < 20 ==> #[trigger] pool.pool_key.hooks@[j] == log.data@[76 + j],
        pool.pool_data.token_a.address@ == pool.pool_key.currency0@,
        pool.pool_data.token_b.address@ == pool.pool_key.currency1@,
        pool.hooks@ == pool.pool_key.hooks@,
        pool.pool_key.fee == word::be_value(log.data@.subrange(0, 32)) % 0x100_0000,
        pool.pool_data.fee == pool.pool_key.fee,
        -0x80_0000 <= pool.pool_key.tick_spacing < 0x80_0000,
        pool.pool_key.tick_spacing as int % 0x100_0000 == word::be_value(
            log.data@.subrange(32, 64),
        ) % 0x100_0000,
        pool.pool_data.tick_spacing == pool.pool_key.tick_spacing,
        pool.pool_data.sqrt_price@ == word::be_value(log.data@.subrange(96, 128)) % pow2(160),
        -0x80_0000 <= pool.pool_data.tick < 0x80_0000,
        pool.pool_data.tick as int % 0x100_0000 == word::be_value(log.data@.subrange(128, 160))
            % 0x100_0000,
        pool.pool_data.liquidity == 0,
        pool.pool_data.token_a.decimals == 0,
        pool.pool_data.token_b.decimals == 0,
        pool.protocol_fee == 0,
        forall|k: i16| !(#[trigger] pool.pool_data.tick_bitmap@.contains_key(k)),
        forall|t: i32| !(#[trigger] pool.pool_data.ticks@.contains_key(t)),
{
    lemma2_to64();
    events::law_word_fields(log.data@, 0);
    events::law_word_fields(log.data@, 1);
    events::law_word_fields(log.data@, 2);
    events::law_word_fields(log.data@, 3);
    events::law_word_fields(log.data@, 4);
}

/// The queries scan the blocks from the manager's creation on in order and without gap, up to the
/// last block or the one before it, for the creations of the manager's pools. All but the last query
/// reach 100000 blocks past their first block. There is no query where the last block is not behind
/// the manager's creation or has no number.
pub proof fn law_creation_queries(
    manager: UniswapV4Factory,
    block_number: Option<u64>,
    queries: Seq<LogQuery>,
)
    requires
        factory::queries_creations(manager, block_number, queries),
    ensures
        block_number is None ==> queries.len() == 0,
        block_number matches Some(n) ==> n <= manager.creation_block ==> queries.len() == 0,
        block_number matches Some(n) ==> n > manager.creation_block ==> {
            &&& queries.len() > 0
            &&& queries[0].from_block == manager.creation_block
            &&& n - 1 <= queries.last().to_block <= n
            &&& queries.last().to_block <= queries.last().from_block + 100_000
        },
        forall|i: int|
            0 <= i < queries.len() ==> {
                let q = #[trigger] queries[i];
                &&& q.from_block <= q.to_block
                &&& q.address == manager.address
                &&& q.event_signature == INITIALIZE_SIGNATURE_HASH
            },
        forall|i: int|
            0 <= i < queries.len() - 1 ==> (#[trigger] queries[i]).to_block
                == queries[i].from_block + 100_000 && queries[i].to_block + 1
                == queries[i + 1].from_block,
{
    let end = match block_number {
        Some(n) => n as int,
        None => 0,
    };
    let from = manager.creation_block as int;
    let windows = factory::scan_windows(from, end);
    let window = |q: LogQuery| (q.from_block as int, q.to_block as int);
    assert(queries.map_values(window) == windows);
    assert(windows.len() == queries.len());
    assert forall|i: int| 0 <= i < queries.len() implies #[trigger] windows[i] == (
        queries[i].from_block as int,
        queries[i].to_block as int,
    ) by {
        assert(queries.map_values(window)[i] == windows[i]);
    }
    if from < end {
        factory::law_windows_contiguous(from, end);
        assert forall|i: int| 0 <= i < queries.len() implies {
            let q = #[trigger] queries[i];
            q.from_block <= q.to_block
        } by {
            assert(windows[i].0 <= windows[i].1);
        }
        assert forall|i: int| 0 <= i < queries.len() - 1 implies (#[trigger] queries[i]).to_block
            == queries[i].from_block + 100_000 && queries[i].to_block + 1
            == queries[i + 1].from_block by {
            assert(windows[i].1 + 1 == windows[i + 1].0);
            assert(windows[i].1 == windows[i].0 + factory::SYNC_STEP);
        }
        assert(windows.last() == windows[windows.len() - 1]);
        assert(windows[0].0 == from);
    }
}

/// Whether a log has the shape of a pool's creation.
spec fn is_creation(log: Log) -> bool {
    log.topics@.len() == 4 && log.topics@[0]@ == INITIALIZE_SIGNATURE_HASH@ && log.data@.len()
        >= 160
}

/// Logs all of which decode have no first defect, and the first defect is that of a log before which
/// all decode.
proof fn lemma_first_defect_place(logs: Seq<Log>)
    ensures
        factory::first_defect(logs) is None <==> forall|j: int|
            0 <= j < logs.len() ==> events::initialize_defect(#[trigger] logs[j]) is None,
        factory::first_defect(logs) matches Some(d) ==> exists|j: int|
            0 <= j < logs.len() && events::initialize_defect(#[trigger] logs[j]) == Some(d)
                && forall|k: int|
                0 <= k < j ==> events::initialize_defect(#[trigger] logs[k]) is None,
    decreases logs.len(),
{
    if logs.len() > 0 {
        let rest = logs.drop_last();
        lemma_first_defect_place(rest);
        assert forall|j: int| 0 <= j < rest.len() implies #[trigger] rest[j] == logs[j] by {}
        match factory::first_defect(rest) {
            Some(d) => {
                let j = choose|j: int|
                    0 <= j < rest.len() && events::initialize_defect(#[trigger] rest[j]) == Some(d)
                        && forall|k: int|
                        0 <= k < j ==> events::initialize_defect(#[trigger] rest[k]) is None;
                assert(events::initialize_defect(logs[j]) == Some(d));
                assert forall|k: int| 0 <= k < j implies events::initialize_defect(
                    #[trigger] logs[k],
                ) is None by {
                    assert(events::initialize_defect(rest[k]) is None);
                }
            },
            None => {
                assert forall|k: int| 0 <= k < rest.len() implies events::initialize_defect(
                    #[trigger] logs[k],
                ) is None by {
                    assert(events::initialize_defect(rest[k]) is None);
                }
                assert(logs[logs.len() - 1] == logs.last());
            },
        }
    }
}

/// The logs that a successful query brought.
pub open spec fn logs_of<E>(result: Result<Vec<Log>, E>) -> Seq<Log> {
    match result {
        Ok(logs) => logs@,
        Err(_) => Seq::empty(),
    }
}

/// Results all of which succeed and bring decodable logs bring their logs together in order.
proof fn lemma_found_all<E>(results: Seq<Result<Vec<Log>, E>>)
    requires
        forall|i: int| 0 <= i < results.len() ==> (#[trigger] results[i]) is Ok,
        forall|i: int|
            0 <= i < results.len() ==> factory::first_defect((#[trigger] results[i])->Ok_0@) is None,
    ensures
        factory::found_logs(results) == Ok::<Seq<Log>, DiscoveryError<E>>(
            results.map_values(|x: Result<Vec<Log>, E>| logs_of(x)).flatten(),
        ),
    decreases results.len(),
{
    let of = |x: Result<Vec<Log>, E>| logs_of(x);
    if results.len() > 0 {
        let rest = results.drop_last();
        assert forall|i: int| 0 <= i < rest.len() implies #[trigger] rest[i] == results[i] by {}
        lemma_found_all(rest);
        assert(results.last() == results[results.len() - 1]);
        assert(results.map_values(of) =~= rest.map_values(of).push(logs_of(results.last())));
        rest.map_values(of).lemma_flatten_push(logs_of(results.last()));
        assert(results.last() is Ok);
        assert(factory::first_defect(results.last()->Ok_0@) is None);
    } else {
        assert(results.map_values(of) =~= Seq::empty());
    }
}

/// What the results fail on is the first failed query, or the defect of a log that the first query
/// with an undecodable log brought.
proof fn lemma_found_error<E>(results: Seq<Result<Vec<Log>, E>>)
    requires
        factory::found_logs(results) is Err,
    ensures
        exists|i: int|
            {
                &&& 0 <= i < results.len()
                &&& forall|k: int|
                    0 <= k < i ==> (#[trigger] results[k]) is Ok && factory::first_defect(
                        results[k]->Ok_0@,
                    ) is None
                &&& match #[trigger] results[i] {
                    Err(e) => factory::found_logs(results)->Err_0 == DiscoveryError::<
                        E,
                    >::Query(e),
                    Ok(logs) => factory::first_defect(logs@) is Some && factory::found_logs(
                        results,
                    )->Err_0 == DiscoveryError::<E>::Pool(
                        AMMError::DecodeError(factory::first_defect(logs@)->Some_0),
                    ),
                }
            },
    decreases results.len(),
{
    if results.len() > 0 {
        let rest = results.drop_last();
        assert forall|i: int| 0 <= i < rest.len() implies #[trigger] rest[i] == results[i] by {}
        if factory::found_logs(rest) is Err {
            lemma_found_error(rest);
            let i = choose|i: int|
                {
                    &&& 0 <= i < rest.len()
                    &&& forall|k: int|
                        0 <= k < i ==> (#[trigger] rest[k]) is Ok && factory::first_defect(
                            rest[k]->Ok_0@,
                        ) is None
                    &&& match #[trigger] rest[i] {
                        Err(e) => factory::found_logs(rest)->Err_0 == DiscoveryError::<
                            E,
                        >::Query(e),
                        Ok(logs) => factory::first_defect(logs@) is Some && factory::found_logs(
                            rest,
                        )->Err_0 == DiscoveryError::<E>::Pool(
                            AMMError::DecodeError(factory::first_defect(logs@)->Some_0),
                        ),
                    }
                };
            assert forall|k: int| 0 <= k < i implies (#[trigger] results[k]) is Ok
                && factory::first_defect(results[k]->Ok_0@) is None by {
                assert(rest[k] is Ok);
            }
            assert(results[i] == rest[i]);
        } else {
            lemma_found_ok(rest);
            let i = results.len() - 1;
            assert forall|k: int| 0 <= k < i implies (#[trigger] results[k]) is Ok
                && factory::first_defect(results[k]->Ok_0@) is None by {
                assert(rest[k] is Ok);
            }
            assert(results[i] == results.last());
        }
    }
}

/// Where the results bring logs together, all of them succeed and bring decodable logs.
proof fn lemma_found_ok<E>(results: Seq<Result<Vec<Log>, E>>)
    requires
        factory::found_logs(results) is Ok,
    ensures
        forall|i: int|
            0 <= i < results.len() ==> (#[trigger] results[i]) is Ok && factory::first_defect(
                results[i]->Ok_0@,
            ) is None,
    decreases results.len(),
{
    if results.len() > 0 {
        let rest = results.drop_last();
        lemma_found_ok(rest);
        assert forall|i: int| 0 <= i < results.len() implies (#[trigger] results[i]) is Ok
            && factory::first_defect(results[i]->Ok_0@) is None by {
            if i < rest.len() {
                assert(rest[i] == results[i]);
            }
        }
    }
}

/// The discovery succeeds exactly where every query succeeded and every log that was found has the
/// shape of a pool's creation. It then gives one pool for each log, in the order of the logs.
pub proof fn law_discovery_succeeds<E>(
    results: Seq<Result<Vec<Log>, E>>,
    r: Result<Vec<AMM>, DiscoveryError<E>>,
)
    requires
        factory::discovery_outcome(results, r),
    ensures
        r is Ok <==> {
            &&& forall|i: int| 0 <= i < results.len() ==> (#[trigger] results[i]) is Ok
            &&& forall|i: int, j: int|
                0 <= i < results.len() && 0 <= j < logs_of(results[i]).len() ==> {
                    let log = #[trigger] logs_of(results[i])[j];
                    log.topics@.len() == 4 && log.topics@[0]@ == INITIALIZE_SIGNATURE_HASH@
                        && log.data@.len() >= 160
                }
        },
        r matches Ok(amms) ==> {
            let logs = results.map_values(|x: Result<Vec<Log>, E>| logs_of(x)).flatten();
            &&& amms@.len() == logs.len()
            &&& forall|i: int|
                0 <= i < logs.len() ==> (#[trigger] amms@[i]) is UniswapV4Pool
                    && factory::is_created_pool(amms@[i]->UniswapV4Pool_0, logs[i])
        },
{
    assert forall|i: int| 0 <= i < results.len() && (#[trigger] results[i]) is Ok implies (
    factory::first_defect(results[i]->Ok_0@) is None <==> forall|j: int|
        0 <= j < logs_of(results[i]).len() ==> is_creation(#[trigger] logs_of(results[i])[j])) by {
        let logs = logs_of(results[i]);
        lemma_first_defect_place(logs);
        assert forall|j: int| 0 <= j < logs.len() implies (is_creation(#[trigger] logs[j])
            <==> events::initialize_defect(logs[j]) is None) by {
            events::law_event_shapes(logs[j]);
        }
    }
    if factory::found_logs(results) is Ok {
        lemma_found_ok(results);
        lemma_found_all(results);
        assert forall|i: int, j: int|
            0 <= i < results.len() && 0 <= j < logs_of(results[i]).len() implies {
            let log = #[trigger] logs_of(results[i])[j];
            log.topics@.len() == 4 && log.topics@[0]@ == INITIALIZE_SIGNATURE_HASH@
                && log.data@.len() >= 160
        } by {
            assert(results[i] is Ok);
            assert(is_creation(logs_of(results[i])[j]));
        }
    } else {
        lemma_found_error(results);
        if (forall|i: int| 0 <= i < results.len() ==> (#[trigger] results[i]) is Ok) && (forall|
            i: int,
            j: int,
        |
            0 <= i < results.len() && 0 <= j < logs_of(results[i]).len() ==> {
                let log = #[trigger] logs_of(results[i])[j];
                log.topics@.len() == 4 && log.topics@[0]@ == INITIALIZE_SIGNATURE_HASH@
                    && log.data@.len() >= 160
            }) {
            assert forall|i: int| 0 <= i < results.len() implies factory::first_defect(
                (#[trigger] results[i])->Ok_0@,
            ) is None by {
                assert(results[i] is Ok);
                assert forall|j: int| 0 <= j < logs_of(results[i]).len() implies is_creation(
                    #[trigger] logs_of(results[i])[j],
                ) by {}
            }
            lemma_found_all(results);
        }
    }
}

/// Where the discovery fails, it fails with the first thing that is wrong: a failed query, before
/// which every query succeeded with decodable logs, or a log that does not decode, before which
/// everything did.
pub proof fn law_discovery_fails<E>(
    results: Seq<Result<Vec<Log>, E>>,
    r: Result<Vec<AMM>, DiscoveryError<E>>,
)
    requires
        factory::discovery_outcome(results, r),
        r is Err,
    ensures
        exists|i: int|
            {
                &&& 0 <= i < results.len()
                &&& forall|k: int|
                    0 <= k < i ==> (#[trigger] results[k]) is Ok && factory::first_defect(
                        results[k]->Ok_0@,
                    ) is None
                &&& match #[trigger] results[i] {
                    Err(e) => r->Err_0 == DiscoveryError::<E>::Query(e),
                    Ok(logs) => exists|j: int|
                        0 <= j < logs@.len() && (#[trigger] events::initialize_defect(
                            logs@[j],
                        )) is Some && r->Err_0 == DiscoveryError::<E>::Pool(
                            AMMError::DecodeError(events::initialize_defect(logs@[j])->Some_0),
                        ) && forall|k: int|
                            0 <= k < j ==> events::initialize_defect(#[trigger] logs@[k]) is None,
                }
            },
{
    lemma_found_error(results);
    let i = choose|i: int|
        {
            &&& 0 <= i < results.len()
            &&& forall|k: int|
                0 <= k < i ==> (#[trigger] results[k]) is Ok && factory::first_defect(
                    results[k]->Ok_0@,
                ) is None
            &&& match #[trigger] results[i] {
                Err(e) => factory::found_logs(results)->Err_0 == DiscoveryError::<E>::Query(e),
                Ok(logs) => factory::first_defect(logs@) is Some && factory::found_logs(
                    results,
                )->Err_0 == DiscoveryError::<E>::Pool(
                    AMMError::DecodeError(factory::first_defect(logs@)->Some_0),
                ),
            }
        };
    match results[i] {
        Err(_) => {},
        Ok(logs) => {
            lemma_first_defect_place(logs@);
        },
    }
}

} // verus!
