//! What bitmaps and ticks are asked for, and what the words that were read make of the pools, in terms
//! of the words' numbers and the pools' fields.
use vstd::arithmetic::div_mod::*;
use vstd::arithmetic::power2::*;
use vstd::prelude::*;

use crate::encoding;
use crate::lense;
use crate::pool::UniswapV4Pool;
use crate::sync;
use crate::sync_laws;
use crate::tick_sync::{self, TickDataQuery};
use crate::uniswap_v3::{self, Info, UniswapV3Pool};
use crate::word::{self, B256, U256};

verus! {

/// The bitmap word of a tick is the one whose 256 multiples of the spacing it falls between.
pub proof fn law_word_of_tick(tick: int, tick_spacing: int)
    requires
        tick_spacing > 0,
    ensures
        uniswap_v3::word_of_tick(tick, tick_spacing) * 256 * tick_spacing <= tick,
        tick < (uniswap_v3::word_of_tick(tick, tick_spacing) + 1) * 256 * tick_spacing,
{
    let s = tick_spacing;
    uniswap_v3::lemma_compressed_tick_floor(tick, s);
    let q = tick / s;
    lemma_fundamental_div_mod(tick, s);
    lemma_mod_bound(tick, s);
    let w = q / 256;
    assert(w * 256 <= q < (w + 1) * 256);
    assert((w * 256) * s <= tick) by (nonlinear_arith)
        requires
            w * 256 <= q,
            tick == s * q + tick % s,
            0 <= tick % s,
            s > 0,
    ;
    assert(tick < ((w + 1) * 256) * s) by (nonlinear_arith)
        requires
            q + 1 <= (w + 1) * 256,
            tick == s * q + tick % s,
            tick % s < s,
            s > 0,
    ;
}

/// Whether `w` is the bitmap word of `tick`.
pub open spec fn is_word_of(w: int, tick: int, tick_spacing: int) -> bool {
    w * 256 * tick_spacing <= tick && tick < (w + 1) * 256 * tick_spacing
}

/// A tick has one bitmap word.
proof fn lemma_word_unique(w: int, tick: int, s: int)
    requires
        s > 0,
        is_word_of(w, tick, s),
    ensures
        w == uniswap_v3::word_of_tick(tick, s),
{
    law_word_of_tick(tick, s);
    let v = uniswap_v3::word_of_tick(tick, s);
    assert(w <= v && v <= w) by (nonlinear_arith)
        requires
            w * 256 * s <= tick,
            tick < (w + 1) * 256 * s,
            v * 256 * s <= tick,
            tick < (v + 1) * 256 * s,
            s > 0,
    ;
}

/// A bitmap marks a multiple of the spacing where it holds the word of the multiple's index, and the
/// word's binary digit of that index modulo 256 is one.
pub proof fn law_mark(pool: UniswapV3Pool, c: int)
    ensures
        uniswap_v3::index_is_set(pool.bitmap(), c) <==> {
            let pos = (c / 256) as i16;
            pool.tick_bitmap@.contains_key(pos) && pool.tick_bitmap@[pos]@ % pow2(
                (c % 256 + 1) as nat,
            ) >= pow2((c % 256) as nat)
        },
{
    let pos = (c / 256) as i16;
    if pool.tick_bitmap@.contains_key(pos) {
        word::law_binary_digit(pool.tick_bitmap@[pos]@, (c % 256) as nat);
        assert(pool.bitmap()[pos] == pool.tick_bitmap@[pos]@);
    }
}

/// The initialized ticks are the marked multiples of the spacing whose words are from that of the
/// lowest to that of the highest tick, in ascending order and each once.
pub proof fn law_initialized_ticks(pool: UniswapV3Pool, ticks: Seq<i32>, first: int, last: int)
    requires
        pool.tick_spacing > 0,
        is_word_of(first, -887272, pool.tick_spacing as int),
        is_word_of(last, 887272, pool.tick_spacing as int),
        ticks.map_values(|t: i32| t as int) == pool.initialized_ticks_spec(),
    ensures
        forall|t: i32|
            #![trigger ticks.contains(t)]
            ticks.contains(t) <==> {
                let c = t as int / pool.tick_spacing as int;
                let pos = (c / 256) as i16;
                &&& t as int % pool.tick_spacing as int == 0
                &&& first <= c / 256 <= last
                &&& pool.tick_bitmap@.contains_key(pos)
                &&& pool.tick_bitmap@[pos]@ % pow2((c % 256 + 1) as nat) >= pow2((c % 256) as nat)
            },
        forall|i: int, j: int|
            0 <= i < j < ticks.len() ==> #[trigger] ticks[i] < #[trigger] ticks[j],
{
    let s = pool.tick_spacing as int;
    lemma_word_unique(first, -887272, s);
    lemma_word_unique(last, 887272, s);
    let lo = uniswap_v3::first_index(s);
    let hi = uniswap_v3::end_index(s);
    let all = pool.initialized_ticks_spec();
    let as_int = |t: i32| t as int;
    uniswap_v3::law_set_ticks_exact(pool.bitmap(), s, lo, hi);
    assert forall|i: int| 0 <= i < ticks.len() implies #[trigger] all[i] == ticks[i] by {
        assert(ticks.map_values(as_int)[i] == ticks[i] as int);
    }
    assert(all.len() == ticks.len());
    assert forall|t: i32|
        #![trigger ticks.contains(t)]
        ticks.contains(t) <==> {
            let c = t as int / s;
            let pos = (c / 256) as i16;
            &&& t as int % s == 0
            &&& first <= c / 256 <= last
            &&& pool.tick_bitmap@.contains_key(pos)
            &&& pool.tick_bitmap@[pos]@ % pow2((c % 256 + 1) as nat) >= pow2((c % 256) as nat)
        } by {
        let c = t as int / s;
        law_mark(pool, c);
        lemma_fundamental_div_mod(t as int, s);
        assert(s * c == c * s) by (nonlinear_arith);
        if ticks.contains(t) {
            let i = choose|i: int| 0 <= i < ticks.len() && ticks[i] == t;
            assert(all[i] == t);
            assert(all.contains(t as int));
            let d = choose|d: int|
                lo <= d < hi && #[trigger] uniswap_v3::index_is_set(pool.bitmap(), d) && t as int
                    == d * s;
            lemma_fundamental_div_mod_converse(t as int, s, d, 0);
        }
        if t as int % s == 0 && first <= c / 256 <= last && uniswap_v3::index_is_set(
            pool.bitmap(),
            c,
        ) {
            assert(lo <= c < hi);
            assert(t as int == c * s);
            assert(all.contains(t as int));
            let i = choose|i: int| 0 <= i < all.len() && all[i] == t as int;
            assert(ticks[i] == t);
        }
    }
    assert forall|i: int, j: int| 0 <= i < j < ticks.len() implies #[trigger] ticks[i]
        < #[trigger] ticks[j] by {
        assert(all[i] < all[j]);
    }
}

/// The pools that are queried for ticks are those that have any, in order and each once.
proof fn lemma_pools_with_ticks(pools: Seq<UniswapV4Pool>)
    ensures
        forall|p: int|
            #![trigger tick_sync::pools_with_ticks(pools).contains(p)]
            tick_sync::pools_with_ticks(pools).contains(p) <==> 0 <= p < pools.len()
                && pools[p].pool_data.initialized_ticks_spec().len() > 0,
    decreases pools.len(),
{
    if pools.len() > 0 {
        let rest = pools.drop_last();
        lemma_pools_with_ticks(rest);
        let below = tick_sync::pools_with_ticks(rest);
        let all = tick_sync::pools_with_ticks(pools);
        assert forall|p: int|
            #![trigger all.contains(p)]
            all.contains(p) <==> 0 <= p < pools.len()
                && pools[p].pool_data.initialized_ticks_spec().len() > 0 by {
            assert(below.contains(p) <==> 0 <= p < rest.len()
                && rest[p].pool_data.initialized_ticks_spec().len() > 0);
            if all.contains(p) {
                let k = choose|k: int| 0 <= k < all.len() && all[k] == p;
                if k < below.len() {
                    assert(below[k] == p);
                }
            }
            if below.contains(p) {
                let k = choose|k: int| 0 <= k < below.len() && below[k] == p;
                assert(all[k] == p);
            }
            if p == pools.len() - 1 && pools[p].pool_data.initialized_ticks_spec().len() > 0 {
                assert(all[all.len() - 1] == p);
            }
        }
    }
}

/// There is a query for each pool with initialized ticks and for no other. It lists the pool's
/// initialized ticks, and for each of them the slot that is the hash of 64 bytes: a word that reads
/// the tick in two's complement, and a word that reads the number four behind the pool's state slot.
pub proof fn law_tick_data_asked(
    pools: Seq<UniswapV4Pool>,
    queries: Seq<TickDataQuery>,
    p: int,
    i: int,
    j: int,
    bytes: Seq<u8>,
)
    requires
        tick_sync::queries_tick_data(pools, queries),
        0 <= p < pools.len(),
    ensures
        pools[p].pool_data.initialized_ticks_spec().len() > 0 <==> exists|k: int|
            0 <= k < queries.len() && (#[trigger] queries[k]).pool == p,
        0 <= i < queries.len() ==> {
            let q = queries[i];
            &&& q.pool < pools.len()
            &&& q.ticks@.map_values(|t: i32| t as int)
                == pools[q.pool as int].pool_data.initialized_ticks_spec()
            &&& q.ticks@.len() > 0
            &&& q.slots@.len() == q.ticks@.len()
            &&& 0 <= j < q.ticks@.len() && encoding::fits_int24(q.ticks@[j] as int) && bytes.len()
                == 64 && word::be_value(bytes.take(32)) == q.ticks@[j] as int % pow2(256) as int
                && word::be_value(bytes.skip(32)) == (word::be_value(
                lense::pool_state_slot(pools[q.pool as int].pool_id@),
            ) + 4) % pow2(256) ==> q.slots@[j].be@ == encoding::keccak(bytes)
        },
{
    let index = |q: TickDataQuery| q.pool as int;
    let with = tick_sync::pools_with_ticks(pools);
    lemma_pools_with_ticks(pools);
    assert(queries.map_values(index) == with);
    if pools[p].pool_data.initialized_ticks_spec().len() > 0 {
        assert(with.contains(p));
        let k = choose|k: int| 0 <= k < with.len() && with[k] == p;
        assert(queries.map_values(index)[k] == index(queries[k]));
        assert(queries[k].pool == p);
    }
    if exists|k: int| 0 <= k < queries.len() && (#[trigger] queries[k]).pool == p {
        let k = choose|k: int| 0 <= k < queries.len() && (#[trigger] queries[k]).pool == p;
        assert(queries.map_values(index)[k] == p);
        assert(with[k] == p);
        assert(with.contains(p));
    }
    if 0 <= i < queries.len() {
        let q = queries[i];
        assert(tick_sync::queries_pool(q, pools));
        assert(queries.map_values(index)[i] == q.pool as int);
        assert(with[i] == q.pool as int);
        assert(with.contains(q.pool as int));
        assert(q.ticks@.map_values(|t: i32| t as int).len() == q.ticks@.len());
        if 0 <= j < q.ticks@.len() && encoding::fits_int24(q.ticks@[j] as int) && bytes.len() == 64
            && word::be_value(bytes.take(32)) == q.ticks@[j] as int % pow2(256) as int {
            lense::law_tick_slot_preimages(
                pools[q.pool as int].pool_id@,
                q.ticks@[j] as int,
                bytes,
            );
            assert(q.slots@[j].be@ == lense::tick_info_slot(
                pools[q.pool as int].pool_id@,
                q.ticks@[j] as int,
            ));
        }
    }
}

/// The slots between two bitmap words are those of the words' first ticks that are not zero.
proof fn lemma_slots_between(id: Seq<u8>, s: int, lo: int, hi: int)
    ensures
        forall|x: Seq<u8>|
            #![trigger tick_sync::bitmap_slots_between(id, s, lo, hi).contains(x)]
            tick_sync::bitmap_slots_between(id, s, lo, hi).contains(x) <==> exists|w: int|
                lo <= w < hi && x == #[trigger] lense::tick_bitmap_slot(id, w * s * 256)
                    && word::be_value(x) != 0,
        (forall|w: int|
            lo <= w < hi ==> word::be_value(#[trigger] lense::tick_bitmap_slot(id, w * s * 256))
                != 0) && lo <= hi ==> {
            &&& tick_sync::bitmap_slots_between(id, s, lo, hi).len() == hi - lo
            &&& forall|k: int|
                0 <= k < hi - lo ==> #[trigger] tick_sync::bitmap_slots_between(id, s, lo, hi)[k]
                    == lense::tick_bitmap_slot(id, (lo + k) * s * 256)
        },
    decreases hi - lo,
{
    let all = tick_sync::bitmap_slots_between(id, s, lo, hi);
    if hi > lo {
        lemma_slots_between(id, s, lo, hi - 1);
        let below = tick_sync::bitmap_slots_between(id, s, lo, hi - 1);
        let slot = lense::tick_bitmap_slot(id, (hi - 1) * s * 256);
        assert forall|x: Seq<u8>|
            #![trigger all.contains(x)]
            all.contains(x) <==> exists|w: int|
                lo <= w < hi && x == #[trigger] lense::tick_bitmap_slot(id, w * s * 256)
                    && word::be_value(x) != 0 by {
            if all.contains(x) {
                let k = choose|k: int| 0 <= k < all.len() && all[k] == x;
                if k < below.len() {
                    assert(below[k] == x);
                    assert(below.contains(x));
                    let w = choose|w: int|
                        lo <= w < hi - 1 && x == #[trigger] lense::tick_bitmap_slot(id, w * s * 256)
                            && word::be_value(x) != 0;
                    assert(lo <= w < hi);
                } else {
                    assert(x == slot);
                }
            }
            if exists|w: int|
                lo <= w < hi && x == #[trigger] lense::tick_bitmap_slot(id, w * s * 256)
                    && word::be_value(x) != 0 {
                let w = choose|w: int|
                    lo <= w < hi && x == #[trigger] lense::tick_bitmap_slot(id, w * s * 256)
                        && word::be_value(x) != 0;
                if w < hi - 1 {
                    assert(below.contains(x));
                    let k = choose|k: int| 0 <= k < below.len() && below[k] == x;
                    assert(all[k] == x);
                } else {
                    assert(all[all.len() - 1] == x);
                }
            }
        }
        if forall|w: int|
            lo <= w < hi ==> word::be_value(#[trigger] lense::tick_bitmap_slot(id, w * s * 256))
                != 0 {
            assert(word::be_value(slot) != 0);
            assert(all == below.push(slot));
        }
    }
}

/// The bitmap words that are asked for are those between the word of the lowest and that of the
/// highest tick, both left out: the slots under their first ticks, in order, but for slots that are
/// zero.
pub proof fn law_bitmap_asked(pool: UniswapV4Pool, slots: Seq<U256>, first: int, last: int)
    requires
        pool.pool_data.tick_spacing > 0,
        is_word_of(first, -887272, pool.pool_data.tick_spacing as int),
        is_word_of(last, 887272, pool.pool_data.tick_spacing as int),
        slots.map_values(|u: U256| u.be@) == tick_sync::bitmap_slots_between(
            pool.pool_id@,
            pool.pool_data.tick_spacing as int,
            uniswap_v3::word_of_tick(
                uniswap_v3::min_tick_value(),
                pool.pool_data.tick_spacing as int,
            ) + 1,
            uniswap_v3::word_of_tick(
                uniswap_v3::max_tick_value(),
                pool.pool_data.tick_spacing as int,
            ),
        ),
    ensures
        forall|w: int|
            first < w < last && word::be_value(
                #[trigger] lense::tick_bitmap_slot(
                    pool.pool_id@,
                    w * pool.pool_data.tick_spacing * 256,
                ),
            ) != 0 ==> exists|k: int|
                0 <= k < slots.len() && (#[trigger] slots[k]).be@ == lense::tick_bitmap_slot(
                    pool.pool_id@,
                    w * pool.pool_data.tick_spacing * 256,
                ),
        forall|k: int|
            0 <= k < slots.len() ==> (#[trigger] slots[k])@ != 0 && exists|w: int|
                first < w < last && slots[k].be@ == #[trigger] lense::tick_bitmap_slot(
                    pool.pool_id@,
                    w * pool.pool_data.tick_spacing * 256,
                ),
        first < last && (forall|w: int|
            first < w < last ==> word::be_value(
                #[trigger] lense::tick_bitmap_slot(
                    pool.pool_id@,
                    w * pool.pool_data.tick_spacing * 256,
                ),
            ) != 0) ==> {
            &&& slots.len() == last - first - 1
            &&& forall|k: int|
                0 <= k < slots.len() ==> (#[trigger] slots[k]).be@ == lense::tick_bitmap_slot(
                    pool.pool_id@,
                    (first + 1 + k) * pool.pool_data.tick_spacing * 256,
                )
        },
{
    let s = pool.pool_data.tick_spacing as int;
    let id = pool.pool_id@;
    lemma_word_unique(first, -887272, s);
    lemma_word_unique(last, 887272, s);
    lemma_slots_between(id, s, first + 1, last);
    let all = tick_sync::bitmap_slots_between(id, s, first + 1, last);
    let bytes = |u: U256| u.be@;
    assert(slots.map_values(bytes) == all);
    assert(all.len() == slots.len());
    assert forall|k: int| 0 <= k < slots.len() implies #[trigger] all[k] == slots[k].be@ by {
        assert(slots.map_values(bytes)[k] == bytes(slots[k]));
    }
    assert forall|w: int|
        first < w < last && word::be_value(#[trigger] lense::tick_bitmap_slot(id, w * s * 256))
            != 0 implies exists|k: int|
        0 <= k < slots.len() && (#[trigger] slots[k]).be@ == lense::tick_bitmap_slot(
            id,
            w * s * 256,
        ) by {
        let x = lense::tick_bitmap_slot(id, w * s * 256);
        assert(all.contains(x));
        let k = choose|k: int| 0 <= k < all.len() && all[k] == x;
        assert(slots[k].be@ == x);
    }
    assert forall|k: int| 0 <= k < slots.len() implies (#[trigger] slots[k])@ != 0 && exists|w: int|
        first < w < last && slots[k].be@ == #[trigger] lense::tick_bitmap_slot(id, w * s * 256) by {
        assert(all[k] == slots[k].be@);
        assert(all.contains(all[k]));
        let w = choose|w: int|
            first + 1 <= w < last && all[k] == #[trigger] lense::tick_bitmap_slot(id, w * s * 256)
                && word::be_value(all[k]) != 0;
        assert(first < w < last);
    }
    if first < last && (forall|w: int|
        first < w < last ==> word::be_value(#[trigger] lense::tick_bitmap_slot(id, w * s * 256))
            != 0) {
        assert forall|w: int| first + 1 <= w < last implies word::be_value(
            #[trigger] lense::tick_bitmap_slot(id, w * s * 256),
        ) != 0 by {}
        assert forall|k: int| 0 <= k < slots.len() implies (#[trigger] slots[k]).be@
            == lense::tick_bitmap_slot(id, (first + 1 + k) * s * 256) by {
            assert(all[k] == slots[k].be@);
        }
    }
}

/// The pieces of a sequence are its elements, as many as asked for at a time.
proof fn lemma_chunk_elements<T>(s: Seq<T>, n: nat, i: int)
    requires
        n > 0,
        0 <= i < tick_sync::chunks(s, n).len(),
    ensures
        n * i + tick_sync::chunks(s, n)[i].len() <= s.len(),
        forall|j: int|
            0 <= j < tick_sync::chunks(s, n)[i].len() ==> #[trigger] tick_sync::chunks(s, n)[i][j]
                == s[n * i + j],
    decreases s.len(),
{
    let all = tick_sync::chunks(s, n);
    if s.len() > n {
        let rest = tick_sync::chunks(s.skip(n as int), n);
        if i > 0 {
            lemma_chunk_elements(s.skip(n as int), n, i - 1);
            assert(all[i] == rest[i - 1]);
            assert(n * (i - 1) + n == n * i) by (nonlinear_arith);
        } else {
            assert(n * i == 0) by (nonlinear_arith)
                requires
                    i == 0,
            ;
        }
    } else {
        assert(n * i == 0) by (nonlinear_arith)
            requires
                i == 0,
        ;
    }
}

/// The number of pieces is the least that holds all elements.
proof fn lemma_chunk_count<T>(s: Seq<T>, n: nat)
    requires
        n > 0,
    ensures
        s.len() <= n * tick_sync::chunks(s, n).len() < s.len() + n,
    decreases s.len(),
{
    let k = tick_sync::chunks(s, n).len();
    if s.len() > n {
        lemma_chunk_count(s.skip(n as int), n);
        let m = tick_sync::chunks(s.skip(n as int), n).len();
        assert(k == m + 1);
        assert(n * (m + 1) == n * m + n) by (nonlinear_arith);
    } else if s.len() > 0 {
        assert(n * 1 == n) by (nonlinear_arith);
    } else {
        assert(n * 0 == 0) by (nonlinear_arith);
    }
}

/// Slots are asked for 500 at a time: query `i` holds, in order, the slots from number `500 * i` on,
/// and there are no more queries than the slots need.
pub proof fn law_slot_queries(slots: Seq<U256>, queries: Seq<Vec<U256>>)
    requires
        tick_sync::contents(queries) == tick_sync::chunks(
            slots,
            tick_sync::SLOTS_PER_QUERY as nat,
        ),
    ensures
        slots.len() <= 500 * queries.len() < slots.len() + 500,
        forall|i: int|
            0 <= i < queries.len() ==> 0 < (#[trigger] queries[i])@.len() <= 500 && 500 * i
                + queries[i]@.len() <= slots.len(),
        forall|i: int|
            0 <= i < queries.len() - 1 ==> (#[trigger] queries[i])@.len() == 500,
        forall|i: int, j: int|
            0 <= i < queries.len() && 0 <= j < queries[i]@.len() ==> #[trigger] queries[i]@[j]
                == slots[500 * i + j],
{
    let all = tick_sync::chunks(slots, 500);
    lemma_chunk_count(slots, 500);
    tick_sync::law_chunks(slots, 500);
    assert(all.len() == queries.len());
    assert forall|i: int| 0 <= i < queries.len() implies #[trigger] all[i] == queries[i]@ by {
        assert(tick_sync::contents(queries)[i] == queries[i]@);
    }
    assert forall|i: int| 0 <= i < queries.len() implies 0 < (#[trigger] queries[i])@.len() <= 500
        && 500 * i + queries[i]@.len() <= slots.len() by {
        lemma_chunk_elements(slots, 500, i);
        assert(all[i] == queries[i]@);
    }
    assert forall|i: int| 0 <= i < queries.len() - 1 implies (#[trigger] queries[i])@.len()
        == 500 by {
        assert(all[i] == queries[i]@);
    }
    assert forall|i: int, j: int|
        0 <= i < queries.len() && 0 <= j < queries[i]@.len() implies #[trigger] queries[i]@[j]
        == slots[500 * i + j] by {
        lemma_chunk_elements(slots, 500, i);
        assert(all[i] == queries[i]@);
        assert(all[i][j] == slots[500 * i + j]);
    }
}

/// Putting pieces together is flattening them.
proof fn lemma_concat_flatten<T>(pieces: Seq<Seq<T>>)
    ensures
        tick_sync::concat(pieces) == pieces.flatten(),
    decreases pieces.len(),
{
    if pieces.len() > 0 {
        assert(pieces.skip(1) =~= pieces.drop_first());
        lemma_concat_flatten(pieces.skip(1));
    }
}

/// A bitmap with words set from a position on holds these words there and is otherwise unchanged.
proof fn lemma_bitmap_with_words(
    bitmap: Map<i16, nat>,
    first: int,
    words: Seq<B256>,
    n: int,
    pos: i16,
)
    requires
        0 <= n <= words.len(),
        -0x8000 <= first,
        first + n <= 0x8000,
    ensures
        ({
            let after = tick_sync::bitmap_with_words(bitmap, first, words, n);
            &&& first <= pos < first + n ==> after.contains_key(pos) && after[pos]
                == word::be_value(words[pos - first]@)
            &&& !(first <= pos < first + n) ==> (after.contains_key(pos) <==> bitmap.contains_key(
                pos,
            )) && (bitmap.contains_key(pos) ==> after[pos] == bitmap[pos])
        }),
    decreases n,
{
    if n > 0 {
        lemma_bitmap_with_words(bitmap, first, words, n - 1, pos);
        assert(((first + n - 1) as i16) as int == first + n - 1);
    }
}

/// A pool whose bitmap words and those of the pools before it were read holds the words of the
/// answers, one after the other, from the word of its lowest tick on and up to that of its highest
/// tick. No other word of its bitmap and nothing else of it changes. A pool behind a failure, or
/// without an answer, is left as it is.
pub proof fn law_bitmap_words_taken<E>(
    before: Seq<UniswapV4Pool>,
    after: Seq<UniswapV4Pool>,
    results: Seq<Result<Vec<Vec<B256>>, E>>,
    i: int,
    first: int,
    last: int,
    pos: i16,
)
    requires
        tick_sync::bitmaps_synced(before, after, results),
        0 <= i < before.len(),
        before[i].pool_data.tick_spacing > 0,
        is_word_of(first, -887272, before[i].pool_data.tick_spacing as int),
        is_word_of(last, 887272, before[i].pool_data.tick_spacing as int),
    ensures
        after.len() == before.len(),
        i < results.len() && (forall|j: int| 0 <= j <= i ==> (#[trigger] results[j]) is Ok) ==> {
            let words = results[i]->Ok_0@.map_values(|a: Vec<B256>| a@).flatten();
            let is = after[i].pool_data.tick_bitmap@;
            let was = before[i].pool_data.tick_bitmap@;
            let set = first <= pos <= last && pos - first < words.len();
            &&& set ==> is.contains_key(pos) && is[pos]@ == word::be_value(words[pos - first]@)
            &&& !set ==> (is.contains_key(pos) <==> was.contains_key(pos))
            &&& !set && was.contains_key(pos) ==> is[pos]@ == was[pos]@
            &&& after[i] == (UniswapV4Pool {
                pool_data: UniswapV3Pool {
                    tick_bitmap: after[i].pool_data.tick_bitmap,
                    ..before[i].pool_data
                },
                ..before[i]
            })
        },
        i >= results.len() || (exists|j: int| 0 <= j <= i && (#[trigger] results[j]) is Err)
            ==> after[i] == before[i],
{
    let n = before.len() as int;
    let k = sync::taken(results, n);
    sync_laws::law_taken_results(results, n);
    let s = before[i].pool_data.tick_spacing as int;
    lemma_word_unique(first, -887272, s);
    lemma_word_unique(last, 887272, s);
    if i < results.len() && (forall|j: int| 0 <= j <= i ==> (#[trigger] results[j]) is Ok) {
        if k <= i {
            assert(results[k] is Err);
            assert(results[k] is Ok);
        }
        let answers = results[i]->Ok_0@;
        assert(tick_sync::bitmap_applied(before[i], after[i], answers));
        let contents = answers.map_values(|a: Vec<B256>| a@);
        assert(tick_sync::contents(answers) =~= contents);
        lemma_concat_flatten(contents);
        let words = contents.flatten();
        let count = tick_sync::bitmap_words_taken(s, words.len() as int);
        assert(-3466 <= first <= last <= 3465) by (nonlinear_arith)
            requires
                first * 256 * s <= -887272,
                -887272 < (first + 1) * 256 * s,
                last * 256 * s <= 887272,
                887272 < (last + 1) * 256 * s,
                s >= 1,
        ;
        lemma_bitmap_with_words(before[i].pool_data.bitmap(), first, words, count, pos);
        let is = after[i].pool_data.tick_bitmap@;
        let was = before[i].pool_data.tick_bitmap@;
        assert(after[i].pool_data.bitmap().contains_key(pos) == is.contains_key(pos));
        assert(before[i].pool_data.bitmap().contains_key(pos) == was.contains_key(pos));
        if is.contains_key(pos) {
            assert(after[i].pool_data.bitmap()[pos] == is[pos]@);
        }
        if was.contains_key(pos) {
            assert(before[i].pool_data.bitmap()[pos] == was[pos]@);
        }
    }
    if i >= results.len() || (exists|j: int| 0 <= j <= i && (#[trigger] results[j]) is Err) {
        if i < k {
            let j = choose|j: int| 0 <= j <= i && (#[trigger] results[j]) is Err;
            assert(results[j] is Ok);
        }
    }
}

/// The record of a tick that is set from the answer of its last occurrence.
proof fn lemma_tick_record(
    records: Map<i32, Info>,
    bitmap: Map<i16, nat>,
    ticks: Seq<i32>,
    answers: Seq<Vec<B256>>,
    n: int,
    t: i32,
)
    requires
        0 <= n <= ticks.len(),
        n <= answers.len(),
    ensures
        ({
            let after = tick_sync::ticks_with_data(records, bitmap, ticks, answers, n);
            &&& forall|j: int|
                0 <= j < n && #[trigger] ticks[j] == t && (forall|k: int|
                    j < k < n ==> #[trigger] ticks[k] != t) ==> after.contains_key(t) && after[t]
                    == tick_sync::info_from_word(bitmap, t as int, answers[j]@[0]@)
            &&& (forall|j: int| 0 <= j < n ==> #[trigger] ticks[j] != t) ==> (after.contains_key(t)
                <==> records.contains_key(t)) && (records.contains_key(t) ==> after[t]
                == records[t])
        }),
    decreases n,
{
    if n > 0 {
        lemma_tick_record(records, bitmap, ticks, answers, n - 1, t);
        let after = tick_sync::ticks_with_data(records, bitmap, ticks, answers, n);
        assert forall|j: int|
            0 <= j < n && #[trigger] ticks[j] == t && (forall|k: int|
                j < k < n ==> #[trigger] ticks[k] != t) implies after.contains_key(t) && after[t]
            == tick_sync::info_from_word(bitmap, t as int, answers[j]@[0]@) by {
            if j < n - 1 {
                assert(ticks[n - 1] != t);
            }
        }
    }
}

/// What a word records of a tick: its net liquidity above its gross liquidity is the word as a signed
/// number, and the mark is the binary digit of the tick modulo 256 in the bitmap word of the tick's
/// quotient by 256, toward zero.
proof fn lemma_info_of_word(pool: UniswapV3Pool, tick: int, w: Seq<u8>)
    requires
        w.len() == 32,
    ensures
        ({
            let info = tick_sync::info_from_word(pool.bitmap(), tick, w);
            let pos = (if tick >= 0 {
                tick / 256
            } else {
                -((-tick) / 256)
            }) as i16;
            &&& info.liquidity_net * pow2(128) + info.liquidity_gross == word::twos_complement(
                word::be_value(w),
                256,
            )
            &&& (info.liquidity_net * pow2(128) + info.liquidity_gross) % pow2(256) as int
                == word::be_value(w)
            &&& info.initialized <==> pool.tick_bitmap@.contains_key(pos)
                && pool.tick_bitmap@[pos]@ % pow2((tick % 256 + 1) as nat) >= pow2(
                (tick % 256) as nat,
            )
        }),
{
    let pos = (if tick >= 0 {
        tick / 256
    } else {
        -((-tick) / 256)
    }) as i16;
    lense::law_liquidity_word(w);
    word::lemma_be_value_bound(w);
    word::law_twos_complement(word::be_value(w), 256);
    lemma2_to64();
    lemma2_to64_rest();
    lemma_pow2_adds(64, 64);
    lemma_pow2_adds(64, 63);
    assert(pow2(128) == u128::MAX + 1);
    assert(pow2(127) == i128::MAX + 1);
    let bit = (tick % 256) as nat;
    if pool.tick_bitmap@.contains_key(pos) {
        word::law_binary_digit(pool.tick_bitmap@[pos]@, bit);
        assert(pool.bitmap()[pos] == pool.tick_bitmap@[pos]@);
    } else {
        lemma_pow2_pos(bit);
        lemma_div_of0(pow2(bit) as int);
        assert(!word::bit_of(0, bit));
    }
}

/// A tick that got an answer, the last one where the tick comes more than once, records what the
/// answer's first word packs: the net liquidity times 2 to the power 128 plus the gross liquidity is
/// the word as a 256-bit integer in two's complement. It is recorded as initialized where the bitmap
/// holds a one for the tick modulo 256, in the word of the tick's quotient by 256 toward zero. The
/// records of the other ticks and all else of the pool stay.
pub proof fn law_tick_words_taken<E>(
    before: Seq<UniswapV4Pool>,
    after: Seq<UniswapV4Pool>,
    queries: Seq<TickDataQuery>,
    results: Seq<Result<Vec<Vec<B256>>, E>>,
    i: int,
    j: int,
    t: i32,
)
    requires
        tick_sync::tick_data_synced(before, after, queries, results),
        0 <= i < queries.len(),
        i < results.len(),
        queries[i].pool < before.len(),
        forall|k: int| 0 <= k <= i ==> (#[trigger] results[k]) is Ok,
    ensures
        ({
            let ticks = queries[i].ticks@;
            let answers = results[i]->Ok_0@;
            let pool = before[queries[i].pool as int];
            let synced = after[queries[i].pool as int];
            let records = synced.pool_data.ticks@;
            let bitmap = pool.pool_data.tick_bitmap@;
            &&& 0 <= j < ticks.len() && j < answers.len() && (forall|k: int|
                j < k < ticks.len() && k < answers.len() ==> #[trigger] ticks[k] != ticks[j]) ==> {
                let w = answers[j]@[0]@;
                let info = records[ticks[j]];
                let tick = ticks[j] as int;
                let pos = (if tick >= 0 {
                    tick / 256
                } else {
                    -((-tick) / 256)
                }) as i16;
                &&& records.contains_key(ticks[j])
                &&& info.liquidity_net * pow2(128) + info.liquidity_gross
                    == word::twos_complement(word::be_value(w), 256)
                &&& (info.liquidity_net * pow2(128) + info.liquidity_gross) % pow2(256) as int
                    == word::be_value(w)
                &&& info.initialized <==> bitmap.contains_key(pos) && bitmap[pos]@ % pow2(
                    (tick % 256 + 1) as nat,
                ) >= pow2((tick % 256) as nat)
            }
            &&& (forall|k: int|
                0 <= k < ticks.len() && k < answers.len() ==> #[trigger] ticks[k] != t) ==> (
            records.contains_key(t) <==> pool.pool_data.ticks@.contains_key(t)) && (
            pool.pool_data.ticks@.contains_key(t) ==> records[t] == pool.pool_data.ticks@[t])
            &&& synced == (UniswapV4Pool {
                pool_data: UniswapV3Pool { ticks: synced.pool_data.ticks, ..pool.pool_data },
                ..pool
            })
        }),
{
    let n = queries.len() as int;
    let count = sync::taken(results, n);
    sync_laws::law_taken_results(results, n);
    if count <= i {
        assert(results[count] is Err);
        assert(results[count] is Ok);
    }
    let ticks = queries[i].ticks@;
    let answers = results[i]->Ok_0@;
    let pool = before[queries[i].pool as int];
    let synced = after[queries[i].pool as int];
    assert(tick_sync::tick_data_applied(pool, synced, ticks, answers));
    let m = sync::smaller(ticks.len() as int, answers.len() as int);
    let bitmap = pool.pool_data.bitmap();
    lemma_tick_record(pool.pool_data.ticks@, bitmap, ticks, answers, m, t);
    if 0 <= j < ticks.len() && j < answers.len() {
        lemma_tick_record(pool.pool_data.ticks@, bitmap, ticks, answers, m, ticks[j]);
        lemma_info_of_word(pool.pool_data, ticks[j] as int, answers[j]@[0]@);
    }
}

/// A pool that no query before the first failure names is left as it is.
pub proof fn law_other_pools_stay<E>(
    before: Seq<UniswapV4Pool>,
    after: Seq<UniswapV4Pool>,
    queries: Seq<TickDataQuery>,
    results: Seq<Result<Vec<Vec<B256>>, E>>,
    p: int,
)
    requires
        tick_sync::tick_data_synced(before, after, queries, results),
        0 <= p < before.len(),
        forall|i: int|
            0 <= i < queries.len() && (#[trigger] queries[i]).pool == p ==> i >= results.len() || (
            exists|j: int| 0 <= j <= i && (#[trigger] results[j]) is Err),
    ensures
        after.len() == before.len(),
        after[p] == before[p],
{
    let n = queries.len() as int;
    let count = sync::taken(results, n);
    sync_laws::law_taken_results(results, n);
    assert forall|i: int| 0 <= i < count implies (#[trigger] queries[i]).pool != p by {
        if queries[i].pool == p {
            let j = choose|j: int| 0 <= j <= i && (#[trigger] results[j]) is Err;
            assert(results[j] is Ok);
        }
    }
}

/// The ticks of a pool are known where every marked multiple of the spacing whose word is from that
/// of the lowest to that of the highest tick fits in 24 bits.
pub proof fn law_known_ticks(pool: UniswapV3Pool, first: int, last: int)
    requires
        pool.tick_spacing > 0,
        is_word_of(first, -887272, pool.tick_spacing as int),
        is_word_of(last, 887272, pool.tick_spacing as int),
    ensures
        pool.set_ticks_fit() <==> forall|c: int|
            #![trigger uniswap_v3::index_is_set(pool.bitmap(), c)]
            first <= c / 256 <= last && uniswap_v3::index_is_set(pool.bitmap(), c) ==> -0x80_0000
                <= c * pool.tick_spacing < 0x80_0000,
{
    let s = pool.tick_spacing as int;
    lemma_word_unique(first, -887272, s);
    lemma_word_unique(last, 887272, s);
}

} // verus!
