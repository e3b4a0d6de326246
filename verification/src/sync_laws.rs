//! What the words and decimals that were read make of the pools, in terms of the words' numbers and
//! the pools' fields.
use vstd::arithmetic::power2::*;
use vstd::prelude::*;

use crate::amm::AMM;
use crate::encoding;
use crate::pipeline;
use crate::pool::UniswapV4Pool;
use crate::sync;
use crate::uniswap_v3::UniswapV3Pool;
use crate::word::{self, Address, B256, U256};

verus! {

/// The first failure among results: before it there is none, and it is one.
proof fn lemma_first_error_place<T, E>(results: Seq<Result<T, E>>, n: int)
    requires
        0 <= n <= results.len(),
    ensures
        0 <= sync::first_error(results, n) <= n,
        forall|j: int|
            0 <= j < sync::first_error(results, n) ==> (#[trigger] results[j]) is Ok,
        sync::first_error(results, n) < n ==> results[sync::first_error(results, n)] is Err,
    decreases n,
{
    if n > 0 {
        lemma_first_error_place(results, n - 1);
    }
}

/// Of the results that stand for a pool, those before the first failure are taken over: all of them
/// are successes, and where there are more, a failure follows.
pub proof fn law_taken_results<T, E>(results: Seq<Result<T, E>>, pools: int)
    requires
        0 <= pools,
    ensures
        0 <= sync::taken(results, pools) <= pools,
        sync::taken(results, pools) <= results.len(),
        forall|j: int| 0 <= j < sync::taken(results, pools) ==> (#[trigger] results[j]) is Ok,
        sync::taken(results, pools) < pools && sync::taken(results, pools) < results.len()
            ==> results[sync::taken(results, pools)] is Err,
{
    lemma_first_error_place(results, sync::smaller(pools, results.len() as int));
}

/// Taking results over succeeds exactly where all the results that stand for a pool are successes,
/// and otherwise returns the failure before which there is none.
pub proof fn law_first_failure_returned<T, E>(
    results: Seq<Result<T, E>>,
    pools: int,
    r: Result<(), E>,
)
    requires
        0 <= pools,
        sync::outcome(results, pools, r),
    ensures
        r is Ok <==> forall|i: int|
            0 <= i < results.len() && i < pools ==> (#[trigger] results[i]) is Ok,
        r is Err ==> exists|i: int|
            {
                &&& 0 <= i < results.len()
                &&& i < pools
                &&& (#[trigger] results[i]) is Err
                &&& results[i]->Err_0 == r->Err_0
                &&& forall|j: int| 0 <= j < i ==> (#[trigger] results[j]) is Ok
            },
{
    law_taken_results(results, pools);
    let k = sync::taken(results, pools);
    if r is Err {
        assert(results[k] is Err);
    }
}

/// A state word's low 29 bytes are its price, tick, protocol fee and fee packed.
proof fn lemma_slot_0_packing(before: UniswapV4Pool, after: UniswapV4Pool, w: Seq<u8>)
    requires
        w.len() == 32,
        sync::slot_0_applied(before, after, w),
    ensures
        word::be_value(w) % pow2(232) == after.pool_data.sqrt_price@ + (
        after.pool_data.tick as int % 0x100_0000) * pow2(160) + after.protocol_fee * pow2(184)
            + after.pool_data.fee * pow2(208),
        after.pool_data.sqrt_price@ < pow2(160),
        -0x80_0000 <= after.pool_data.tick < 0x80_0000,
        after.protocol_fee < 0x100_0000,
        after.pool_data.fee < 0x100_0000,
{
    let f = w.subrange(3, 6);
    let g = w.subrange(6, 9);
    let t = w.subrange(9, 12);
    let q = w.skip(12);
    lemma2_to64();
    word::lemma_be_value_parts(w, 3);
    assert(w.skip(3) =~= ((f + g) + t) + q);
    word::lemma_be_value_append(f, g);
    word::lemma_be_value_append(f + g, t);
    word::lemma_be_value_append((f + g) + t, q);
    word::lemma_be_value_bound(f);
    word::lemma_be_value_bound(g);
    word::lemma_be_value_bound(t);
    word::lemma_be_value_bound(q);
    word::law_twos_complement(word::be_value(t), 24);
    lemma_pow2_adds(160, 24);
    lemma_pow2_adds(184, 24);
    let fv = word::be_value(f) as int;
    let gv = word::be_value(g) as int;
    let tv = word::be_value(t) as int;
    let p = pow2(160) as int;
    let d: int = 0x100_0000;
    assert(((fv * d + gv) * d + tv) * p == tv * p + gv * (p * d) + fv * ((p * d) * d))
        by (nonlinear_arith);
}

/// A pool whose state word and those before it were read holds, packed again, the low 29 bytes of the
/// word: the price on 160 bits, above it the tick on 24 bits, the protocol fee and the fee on 24 bits
/// each. Nothing else of it changes. A pool behind a failure, or without a word, is left as it is.
pub proof fn law_slot_0_packs_back<E>(
    before: Seq<UniswapV4Pool>,
    after: Seq<UniswapV4Pool>,
    results: Seq<Result<B256, E>>,
    i: int,
)
    requires
        sync::slot_0_synced(before, after, results),
        0 <= i < before.len(),
    ensures
        after.len() == before.len(),
        i < results.len() && (forall|j: int| 0 <= j <= i ==> (#[trigger] results[j]) is Ok) ==> {
            &&& word::be_value(results[i]->Ok_0@) % pow2(232) == after[i].pool_data.sqrt_price@ + (
            after[i].pool_data.tick as int % 0x100_0000) * pow2(160) + after[i].protocol_fee
                * pow2(184) + after[i].pool_data.fee * pow2(208)
            &&& after[i].pool_data.sqrt_price@ < pow2(160)
            &&& -0x80_0000 <= after[i].pool_data.tick < 0x80_0000
            &&& after[i].protocol_fee < 0x100_0000
            &&& after[i].pool_data.fee < 0x100_0000
            &&& after[i] == (UniswapV4Pool {
                protocol_fee: after[i].protocol_fee,
                pool_data: UniswapV3Pool {
                    sqrt_price: after[i].pool_data.sqrt_price,
                    tick: after[i].pool_data.tick,
                    fee: after[i].pool_data.fee,
                    ..before[i].pool_data
                },
                ..before[i]
            })
        },
        i >= results.len() || (exists|j: int| 0 <= j <= i && (#[trigger] results[j]) is Err)
            ==> after[i] == before[i],
{
    let n = before.len() as int;
    let k = sync::taken(results, n);
    law_taken_results(results, n);
    if i < results.len() && (forall|j: int| 0 <= j <= i ==> (#[trigger] results[j]) is Ok) {
        if k <= i {
            assert(results[k] is Err);
            assert(results[k] is Ok);
        }
        assert(sync::slot_0_applied(before[i], after[i], results[i]->Ok_0@));
        lemma_slot_0_packing(before[i], after[i], results[i]->Ok_0@);
    }
    if i >= results.len() || (exists|j: int| 0 <= j <= i && (#[trigger] results[j]) is Err) {
        if i < k {
            let j = choose|j: int| 0 <= j <= i && (#[trigger] results[j]) is Err;
            assert(results[j] is Ok);
        }
    }
}

/// A pool's state word is asked from the pool's manager, under the hash of 64 bytes: the pool's
/// identifier, and a word that reads six.
pub proof fn law_slot_0_asked(
    pools: Seq<UniswapV4Pool>,
    queries: Seq<(Address, U256)>,
    i: int,
    p: Seq<u8>,
)
    requires
        sync::queries_slot_0(pools, queries),
        0 <= i < pools.len(),
        p.len() == 64,
        p.take(32) == pools[i].pool_id@,
        word::be_value(p.skip(32)) == 6,
    ensures
        queries.len() == pools.len(),
        queries[i].0 == pools[i].pool_data.address,
        queries[i].1.be@ == encoding::keccak(p),
{
    crate::lense::law_state_slot_preimage(pools[i].pool_id@, p);
}

/// The tokens whose decimals are asked for are the first and second tokens of the pools, each once.
pub proof fn law_tokens_asked(pools: Seq<UniswapV4Pool>, tokens: Seq<Address>)
    requires
        sync::lists_tokens(pools, tokens),
    ensures
        forall|i: int|
            0 <= i < pools.len() ==> tokens.contains((#[trigger] pools[i]).pool_data.token_a.address)
                && tokens.contains(pools[i].pool_data.token_b.address),
        forall|a: Address| #[trigger]
            tokens.contains(a) ==> exists|i: int|
                0 <= i < pools.len() && ((#[trigger] pools[i]).pool_data.token_a.address == a
                    || pools[i].pool_data.token_b.address == a),
        forall|k: int, l: int|
            0 <= k < l < tokens.len() ==> #[trigger] tokens[k] != #[trigger] tokens[l],
{
    assert forall|a: Address| #[trigger] tokens.contains(a) implies exists|i: int|
        0 <= i < pools.len() && ((#[trigger] pools[i]).pool_data.token_a.address == a
            || pools[i].pool_data.token_b.address == a) by {
        assert(sync::is_token_of(pools, a));
    }
    assert forall|i: int| 0 <= i < pools.len() implies tokens.contains(
        (#[trigger] pools[i]).pool_data.token_a.address,
    ) && tokens.contains(pools[i].pool_data.token_b.address) by {
        assert(sync::is_token_of(pools, pools[i].pool_data.token_a.address));
        assert(sync::is_token_of(pools, pools[i].pool_data.token_b.address));
    }
}

/// The decimals of a list's first entry for a token, where it has one.
proof fn lemma_decimals_of(list: Seq<(Address, u8)>, a: Address)
    ensures
        forall|k: int|
            0 <= k < list.len() && (#[trigger] list[k]).0 == a && (forall|j: int|
                0 <= j < k ==> (#[trigger] list[j]).0 != a) ==> sync::decimals_of(list, a) == Some(
                list[k].1,
            ),
        (forall|k: int| 0 <= k < list.len() ==> (#[trigger] list[k]).0 != a)
            ==> sync::decimals_of(list, a) is None,
    decreases list.len(),
{
    if list.len() > 0 {
        let rest = list.drop_last();
        lemma_decimals_of(rest, a);
        assert forall|j: int| 0 <= j < rest.len() implies #[trigger] rest[j] == list[j] by {}
        assert forall|k: int|
            0 <= k < list.len() && (#[trigger] list[k]).0 == a && (forall|j: int|
                0 <= j < k ==> (#[trigger] list[j]).0 != a) implies sync::decimals_of(list, a)
            == Some(list[k].1) by {
            if k < rest.len() {
                assert(rest[k].0 == a);
                assert forall|j: int| 0 <= j < k implies (#[trigger] rest[j]).0 != a by {
                    assert(list[j].0 != a);
                }
            } else {
                assert forall|j: int| 0 <= j < rest.len() implies (#[trigger] rest[j]).0 != a by {
                    assert(list[j].0 != a);
                }
            }
        }
        if forall|k: int| 0 <= k < list.len() ==> (#[trigger] list[k]).0 != a {
            assert forall|j: int| 0 <= j < rest.len() implies (#[trigger] rest[j]).0 != a by {
                assert(list[j].0 != a);
            }
            assert(list[list.len() - 1].0 != a);
        }
    }
}

/// A token for which the list has an entry gets the decimals of the first such entry, and a token for
/// which it has none keeps its decimals. Nothing else of a pool changes.
pub proof fn law_decimals_by_token(
    before: Seq<UniswapV4Pool>,
    after: Seq<UniswapV4Pool>,
    list: Seq<(Address, u8)>,
    i: int,
)
    requires
        sync::decimals_synced(before, after, list),
        0 <= i < before.len(),
    ensures
        after.len() == before.len(),
        after[i] == sync::with_decimals(before[i], list),
        forall|k: int|
            0 <= k < list.len() && (#[trigger] list[k]).0 == before[i].pool_data.token_a.address && (
            forall|j: int|
                0 <= j < k ==> (#[trigger] list[j]).0 != before[i].pool_data.token_a.address)
                ==> after[i].pool_data.token_a.decimals == list[k].1,
        (forall|k: int|
            0 <= k < list.len() ==> (#[trigger] list[k]).0 != before[i].pool_data.token_a.address)
            ==> after[i].pool_data.token_a.decimals == before[i].pool_data.token_a.decimals,
        forall|k: int|
            0 <= k < list.len() && (#[trigger] list[k]).0 == before[i].pool_data.token_b.address && (
            forall|j: int|
                0 <= j < k ==> (#[trigger] list[j]).0 != before[i].pool_data.token_b.address)
                ==> after[i].pool_data.token_b.decimals == list[k].1,
        (forall|k: int|
            0 <= k < list.len() ==> (#[trigger] list[k]).0 != before[i].pool_data.token_b.address)
            ==> after[i].pool_data.token_b.decimals == before[i].pool_data.token_b.decimals,
        after[i].pool_data.token_a.address == before[i].pool_data.token_a.address,
        after[i].pool_data.token_b.address == before[i].pool_data.token_b.address,
        after[i] == (UniswapV4Pool {
            pool_data: UniswapV3Pool {
                token_a: after[i].pool_data.token_a,
                token_b: after[i].pool_data.token_b,
                ..before[i].pool_data
            },
            ..before[i]
        }),
{
    lemma_decimals_of(list, before[i].pool_data.token_a.address);
    lemma_decimals_of(list, before[i].pool_data.token_b.address);
}

/// The kept pools are those of the pools that satisfy a condition on the fields.
proof fn lemma_unpopulated_filter(pools: Seq<UniswapV4Pool>)
    ensures
        pipeline::unpopulated(pools) == pools.filter(
            |p: UniswapV4Pool|
                p.pool_data.liquidity == 0 || p.pool_data.token_a.decimals == 0
                    || p.pool_data.token_b.decimals == 0,
        ),
    decreases pools.len(),
{
    reveal(Seq::filter);
    if pools.len() > 0 {
        lemma_unpopulated_filter(pools.drop_last());
    } else {
        assert(pipeline::unpopulated(pools) =~= pools);
    }
}

/// Once the decimals are taken over, the pools without active liquidity and those with a token of no
/// decimals are kept, in order, and no other: a pool that is gone had active liquidity and decimals
/// of both tokens.
pub proof fn law_pools_kept(
    before: Seq<UniswapV4Pool>,
    with: Seq<UniswapV4Pool>,
    after: Seq<UniswapV4Pool>,
    list: Seq<(Address, u8)>,
)
    requires
        pipeline::decimals_taken(before, after, list),
        sync::decimals_synced(before, with, list),
    ensures
        after == with.filter(
            |p: UniswapV4Pool|
                p.pool_data.liquidity == 0 || p.pool_data.token_a.decimals == 0
                    || p.pool_data.token_b.decimals == 0,
        ),
        forall|i: int|
            0 <= i < with.len() && ((#[trigger] with[i]).pool_data.liquidity == 0
                || with[i].pool_data.token_a.decimals == 0 || with[i].pool_data.token_b.decimals
                == 0) ==> after.contains(with[i]),
        forall|i: int|
            0 <= i < before.len() && (#[trigger] before[i]).pool_data.liquidity == 0
                ==> after.contains(with[i]),
        forall|i: int|
            0 <= i < with.len() && !after.contains(#[trigger] with[i])
                ==> with[i].pool_data.liquidity > 0 && with[i].pool_data.token_a.decimals > 0
                && with[i].pool_data.token_b.decimals > 0,
        forall|j: int|
            0 <= j < after.len() ==> {
                let p = #[trigger] after[j];
                with.contains(p) && (p.pool_data.liquidity == 0 || p.pool_data.token_a.decimals
                    == 0 || p.pool_data.token_b.decimals == 0)
            },
{
    let keep = |p: UniswapV4Pool|
        p.pool_data.liquidity == 0 || p.pool_data.token_a.decimals == 0
            || p.pool_data.token_b.decimals == 0;
    lemma_unpopulated_filter(with);
    assert(after == with.filter(keep));
    assert forall|i: int| 0 <= i < with.len() && keep(#[trigger] with[i]) implies after.contains(
        with[i],
    ) by {
        with.lemma_filter_contains(keep, i);
    }
    assert forall|i: int|
        0 <= i < before.len() && (#[trigger] before[i]).pool_data.liquidity == 0 implies after.contains(
        with[i],
    ) by {
        law_decimals_by_token(before, with, list, i);
        assert(keep(with[i]));
    }
    assert forall|i: int| 0 <= i < with.len() && !after.contains(#[trigger] with[i]) implies
        with[i].pool_data.liquidity > 0 && with[i].pool_data.token_a.decimals > 0
        && with[i].pool_data.token_b.decimals > 0 by {
        assert(!keep(with[i]));
    }
    assert forall|j: int| 0 <= j < after.len() implies {
        let p = #[trigger] after[j];
        with.contains(p) && (p.pool_data.liquidity == 0 || p.pool_data.token_a.decimals == 0
            || p.pool_data.token_b.decimals == 0)
    } by {
        with.lemma_filter_pred(keep, j);
        with.lemma_filter_contains_rev(keep, after[j]);
    }
}

/// A synchronization begins with the pools of the singleton pool manager, all of them and in order.
pub proof fn law_all_pools_begin(amms: Seq<AMM>)
    ensures
        pipeline::v4_pools(amms) == amms.filter(|a: AMM| a is UniswapV4Pool).map_values(
            |a: AMM| a->UniswapV4Pool_0,
        ),
    decreases amms.len(),
{
    let is_v4 = |a: AMM| a is UniswapV4Pool;
    let inner = |a: AMM| a->UniswapV4Pool_0;
    reveal(Seq::filter);
    if amms.len() > 0 {
        law_all_pools_begin(amms.drop_last());
        let below = amms.drop_last().filter(is_v4);
        if amms.last() is UniswapV4Pool {
            assert(below.push(amms.last()).map_values(inner) =~= below.map_values(inner).push(
                amms.last()->UniswapV4Pool_0,
            ));
        }
    } else {
        assert(amms.filter(is_v4).map_values(inner) =~= Seq::empty());
    }
}

} // verus!
