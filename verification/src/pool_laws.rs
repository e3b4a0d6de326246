//! What a pool's key, identifier and swaps are made of, byte by byte, and what the logs that it
//! follows make of it.
use vstd::arithmetic::div_mod::*;
use vstd::arithmetic::power2::*;
use vstd::prelude::*;

use crate::encoding;
use crate::error::{AMMError, DecodeError, UniswapV3Error, UniswapV4Error};
use crate::events::{
    self, Log, MODIFY_LIQUIDITY_SIGNATURE_HASH, SWAP_SIGNATURE_HASH,
};
use crate::pool::{self, PoolKey, UniswapV4Pool};
use crate::position;
use crate::position_laws;
use crate::uniswap_v3::UniswapV3Pool;
use crate::word;

verus! {

/// An encoded key is five words: the two currencies and the hook contract in the last 20 bytes of
/// the first, second and last word, behind zeroes, and in between the fee and, in two's complement,
/// the tick spacing.
pub proof fn law_key_layout(key: PoolKey)
    requires
        pool::key_in_range(key),
    ensures
        key.words().len() == 160,
        key.words().subrange(12, 32) == key.currency0@,
        key.words().subrange(44, 64) == key.currency1@,
        word::be_value(key.words().subrange(64, 96)) == key.fee,
        word::be_value(key.words().subrange(96, 128)) == key.tick_spacing as int % pow2(
            256,
        ) as int,
        key.words().subrange(140, 160) == key.hooks@,
        forall|i: int|
            0 <= i < 12 || 32 <= i < 44 || 128 <= i < 140 ==> #[trigger] key.words()[i] == 0,
{
    let p = key.words();
    word::law_words_read_back(key.fee as nat, key.tick_spacing as int, key.currency0@);
    lemma2_to64();
    lemma_pow2_strictly_increases(24, 256);
    lemma_small_mod(key.fee as nat, pow2(256));
    assert(p.subrange(12, 32) =~= key.currency0@);
    assert(p.subrange(44, 64) =~= key.currency1@);
    assert(p.subrange(64, 96) =~= word::uint_word(key.fee as nat));
    assert(p.subrange(96, 128) =~= word::int_word(key.tick_spacing as int));
    assert(p.subrange(140, 160) =~= key.hooks@);
}

/// A pool's key holds the first token, the second token, the fee and the hook contract of the pool,
/// and the 24-bit integer that is congruent to its tick spacing.
pub proof fn law_key_of_pool(pool: UniswapV4Pool)
    requires
        pool.key_fits(),
    ensures
        pool.key().currency0 == pool.pool_data.token_a.address,
        pool.key().currency1 == pool.pool_data.token_b.address,
        pool.key().fee == pool.pool_data.fee,
        pool.key().hooks == pool.hooks,
        -0x80_0000 <= pool.key().tick_spacing < 0x80_0000,
        pool.key().tick_spacing as int % 0x100_0000 == pool.pool_data.tick_spacing,
{
    lemma2_to64();
    word::law_twos_complement(pool.pool_data.tick_spacing as nat, 24);
}

/// A pool's identifier is the hash of the 160 bytes that hold, word by word, its first token, its
/// second token, its fee, its tick spacing and its hook contract.
pub proof fn law_pool_id_preimage(pool: UniswapV4Pool, p: Seq<u8>, spacing: int)
    requires
        pool.key_fits(),
        -0x80_0000 <= spacing < 0x80_0000,
        spacing % 0x100_0000 == pool.pool_data.tick_spacing,
        p.len() == 160,
        forall|i: int| 0 <= i < 12 || 32 <= i < 44 || 128 <= i < 140 ==> #[trigger] p[i] == 0,
        p.subrange(12, 32) == pool.pool_data.token_a.address@,
        p.subrange(44, 64) == pool.pool_data.token_b.address@,
        word::be_value(p.subrange(64, 96)) == pool.pool_data.fee,
        word::be_value(p.subrange(96, 128)) == spacing % pow2(256) as int,
        p.subrange(140, 160) == pool.hooks@,
    ensures
        encoding::keccak(pool.key().words()) == encoding::keccak(p),
{
    let q = pool.key().words();
    pool::law_key_in_range(pool);
    law_key_layout(pool.key());
    law_key_of_pool(pool);
    lemma2_to64();
    word::lemma_signed_unique(pool.key().tick_spacing as int, spacing, 24);
    word::lemma_be_value_injective(p.subrange(64, 96), q.subrange(64, 96));
    word::lemma_be_value_injective(p.subrange(96, 128), q.subrange(96, 128));
    assert forall|i: int| 0 <= i < 160 implies p[i] == q[i] by {
        if 12 <= i < 32 {
            assert(p.subrange(12, 32)[i - 12] == q.subrange(12, 32)[i - 12]);
        } else if 44 <= i < 64 {
            assert(p.subrange(44, 64)[i - 44] == q.subrange(44, 64)[i - 44]);
        } else if 64 <= i < 96 {
            assert(p.subrange(64, 96)[i - 64] == q.subrange(64, 96)[i - 64]);
        } else if 96 <= i < 128 {
            assert(p.subrange(96, 128)[i - 96] == q.subrange(96, 128)[i - 96]);
        } else if 140 <= i < 160 {
            assert(p.subrange(140, 160)[i - 140] == q.subrange(140, 160)[i - 140]);
        }
    }
    assert(p =~= q);
}

/// The call data of a swap are the selector and whole words: the five words of the pool's key, the
/// direction, the amount, the price limit, the offset of the hook data behind the first nine words,
/// the length of the hook data, and the hook data behind which zeroes fill up the last word.
pub proof fn law_swap_call_layout(
    pool: UniswapV4Pool,
    zero_for_one: bool,
    amount_specified: Seq<u8>,
    sqrt_price_limit: Seq<u8>,
    hook_data: Seq<u8>,
)
    requires
        pool.key_fits(),
        amount_specified.len() == 32,
        sqrt_price_limit.len() == 32,
        hook_data.len() < pow2(256),
    ensures
        ({
            let out = pool::swap_call(
                pool,
                zero_for_one,
                amount_specified,
                sqrt_price_limit,
                hook_data,
            );
            let n = hook_data.len() as int;
            &&& out.len() >= 324 + n
            &&& out.len() < 324 + n + 32
            &&& (out.len() - 4) % 32 == 0
            &&& out.take(4) == seq![0xf3u8, 0xcdu8, 0x91u8, 0x4cu8]
            &&& out.subrange(16, 36) == pool.pool_data.token_a.address@
            &&& out.subrange(48, 68) == pool.pool_data.token_b.address@
            &&& word::be_value(out.subrange(68, 100)) == pool.pool_data.fee
            &&& word::be_value(out.subrange(100, 132)) == pool.key().tick_spacing as int % pow2(
                256,
            ) as int
            &&& out.subrange(144, 164) == pool.hooks@
            &&& word::be_value(out.subrange(164, 196)) == if zero_for_one {
                1int
            } else {
                0int
            }
            &&& out.subrange(196, 228) == amount_specified
            &&& out.subrange(228, 260) == sqrt_price_limit
            &&& word::be_value(out.subrange(260, 292)) == 288
            &&& word::be_value(out.subrange(292, 324)) == n
            &&& out.subrange(324, 324 + n) == hook_data
            &&& forall|i: int|
                4 <= i < 16 || 36 <= i < 48 || 132 <= i < 144 || 324 + n <= i < out.len()
                    ==> #[trigger] out[i] == 0
        }),
{
    let key = pool.key();
    let out = pool::swap_call(pool, zero_for_one, amount_specified, sqrt_price_limit, hook_data);
    let n = hook_data.len();
    let direction: nat = if zero_for_one {
        1
    } else {
        0
    };
    let w = key.words();
    pool::law_key_in_range(pool);
    law_key_layout(key);
    law_key_of_pool(pool);
    word::law_words_read_back(direction, 0, pool.hooks@);
    word::law_words_read_back(288, 0, pool.hooks@);
    word::law_words_read_back(n, 0, pool.hooks@);
    lemma2_to64();
    lemma_pow2_strictly_increases(16, 256);
    lemma_small_mod(direction, pow2(256));
    lemma_small_mod(288, pow2(256));
    lemma_small_mod(n, pow2(256));
    assert(pool::SWAP_SELECTOR@ =~= seq![0xf3u8, 0xcdu8, 0x91u8, 0x4cu8]);
    assert(pool::padding(n).len() == (32 - n % 32) % 32);
    assert(out.len() == 324 + n + pool::padding(n).len());
    assert(out.take(4) =~= pool::SWAP_SELECTOR@);
    assert(out.subrange(4, 164) =~= w);
    assert(out.subrange(16, 36) =~= w.subrange(12, 32));
    assert(out.subrange(48, 68) =~= w.subrange(44, 64));
    assert(out.subrange(68, 100) =~= w.subrange(64, 96));
    assert(out.subrange(100, 132) =~= w.subrange(96, 128));
    assert(out.subrange(144, 164) =~= w.subrange(140, 160));
    assert(out.subrange(164, 196) =~= word::uint_word(direction));
    assert(out.subrange(196, 228) =~= amount_specified);
    assert(out.subrange(228, 260) =~= sqrt_price_limit);
    assert(out.subrange(260, 292) =~= word::uint_word(288));
    assert(out.subrange(292, 324) =~= word::uint_word(n));
    assert(out.subrange(324, 324 + n as int) =~= hook_data);
    assert forall|i: int|
        4 <= i < 16 || 36 <= i < 48 || 132 <= i < 144 || 324 + n <= i
            < out.len() implies #[trigger] out[i] == 0 by {
        if i < 164 {
            assert(out[i] == w[i - 4]);
        } else {
            assert(out[i] == pool::padding(n)[i - 324 - n]);
        }
    }
}

/// The two events that a pool follows have different signature hashes.
proof fn lemma_followed_events_differ()
    ensures
        MODIFY_LIQUIDITY_SIGNATURE_HASH@ != SWAP_SIGNATURE_HASH@,
{
    assert(MODIFY_LIQUIDITY_SIGNATURE_HASH@[0] == 0xf2);
    assert(SWAP_SIGNATURE_HASH@[0] == 0x40);
}

/// Following a swap sets the price to the third word of the log's data on 160 bits, the active
/// liquidity to the fourth on 128 bits, and the tick to the fifth as a signed integer on 24 bits. It
/// changes nothing else.
pub proof fn law_swap_followed(
    before: UniswapV4Pool,
    after: UniswapV4Pool,
    log: Log,
    r: Result<(), AMMError>,
)
    requires
        UniswapV4Pool::sync_outcome(before, after, log, r),
        log.topics@.len() == 3,
        log.topics@[0]@ == SWAP_SIGNATURE_HASH@,
        log.data@.len() >= 192,
    ensures
        r is Ok,
        after.pool_data.sqrt_price@ == word::be_value(log.data@.subrange(64, 96)) % pow2(160),
        after.pool_data.liquidity == word::be_value(log.data@.subrange(96, 128)) % pow2(128),
        -0x80_0000 <= after.pool_data.tick < 0x80_0000,
        after.pool_data.tick as int % 0x100_0000 == word::be_value(log.data@.subrange(128, 160))
            % 0x100_0000,
        after == (UniswapV4Pool {
            pool_data: UniswapV3Pool {
                sqrt_price: after.pool_data.sqrt_price,
                liquidity: after.pool_data.liquidity,
                tick: after.pool_data.tick,
                ..before.pool_data
            },
            ..before
        }),
{
    lemma_followed_events_differ();
    lemma2_to64();
    events::law_event_shapes(log);
    events::law_word_fields(log.data@, 2);
    events::law_word_fields(log.data@, 3);
    events::law_word_fields(log.data@, 4);
}

/// Following a change of a position between the ticks that the first two words of the log's data
/// read on 24 bits, by the amount that the third word reads, is changing that position of the pool
/// by that amount, or is refused where the pool cannot take it. The active liquidity changes by the
/// amount exactly where the pool's tick is at or above the lower and below the upper tick.
pub proof fn law_position_followed(
    before: UniswapV4Pool,
    after: UniswapV4Pool,
    log: Log,
    r: Result<(), AMMError>,
    tick_lower: i32,
    tick_upper: i32,
    delta: int,
)
    requires
        UniswapV4Pool::sync_outcome(before, after, log, r),
        log.topics@.len() == 3,
        log.topics@[0]@ == MODIFY_LIQUIDITY_SIGNATURE_HASH@,
        log.data@.len() >= 128,
        -0x80_0000 <= tick_lower < 0x80_0000,
        tick_lower as int % 0x100_0000 == word::be_value(log.data@.subrange(0, 32)) % 0x100_0000,
        -0x80_0000 <= tick_upper < 0x80_0000,
        tick_upper as int % 0x100_0000 == word::be_value(log.data@.subrange(32, 64)) % 0x100_0000,
        -(pow2(255) as int) <= delta < pow2(255),
        delta % pow2(256) as int == word::be_value(log.data@.subrange(64, 96)),
    ensures
        r is Ok <==> before.pool_data.takes_position(tick_lower, tick_upper, delta),
        r is Ok ==> position::position_changed(
            before.pool_data,
            after.pool_data,
            tick_lower,
            tick_upper,
            delta,
        ),
        r is Ok && tick_lower <= before.pool_data.tick && before.pool_data.tick < tick_upper
            ==> after.pool_data.liquidity == before.pool_data.liquidity + delta,
        before.pool_data.tick < tick_lower || tick_upper <= before.pool_data.tick
            ==> after.pool_data.liquidity == before.pool_data.liquidity,
        r is Err ==> after == before && r == Err::<(), AMMError>(
            AMMError::UniswapV3Error(UniswapV3Error::LiquidityOutOfRange),
        ),
        after.pool_key == before.pool_key,
        after.pool_id == before.pool_id,
        after.hooks == before.hooks,
        after.protocol_fee == before.protocol_fee,
        after.initialized == before.initialized,
{
    lemma2_to64();
    events::law_event_shapes(log);
    events::law_word_fields(log.data@, 0);
    events::law_word_fields(log.data@, 1);
    events::law_word_fields(log.data@, 2);
    let w0 = events::word_int24(events::data_word(log.data@, 0));
    let w1 = events::word_int24(events::data_word(log.data@, 1));
    let w2 = events::word_int256(events::data_word(log.data@, 2));
    word::lemma_signed_unique(tick_lower as int, w0, 24);
    word::lemma_signed_unique(tick_upper as int, w1, 24);
    word::lemma_signed_unique(delta, w2, 256);
    if r is Ok {
        position_laws::law_active_liquidity(
            before.pool_data,
            after.pool_data,
            tick_lower,
            tick_upper,
            delta,
        );
    }
}

/// A log with another signature hash than that of a change of a position or of a swap is refused
/// with its signature hash, and one of these two with more or fewer topics or with too few data is
/// refused as undecodable. Neither changes the pool.
pub proof fn law_refused_logs(
    before: UniswapV4Pool,
    after: UniswapV4Pool,
    log: Log,
    r: Result<(), AMMError>,
)
    requires
        UniswapV4Pool::sync_outcome(before, after, log, r),
        log.topics@.len() > 0,
    ensures
        ({
            let modify = log.topics@[0]@ == MODIFY_LIQUIDITY_SIGNATURE_HASH@;
            let swap = log.topics@[0]@ == SWAP_SIGNATURE_HASH@;
            &&& !modify && !swap ==> r == Err::<(), AMMError>(
                AMMError::UniswapV4Error(UniswapV4Error::UnknownEventSignature(log.topics@[0])),
            )
            &&& (modify || swap) && log.topics@.len() != 3 ==> r == Err::<(), AMMError>(
                AMMError::DecodeError(DecodeError::TopicCount),
            )
            &&& modify && log.topics@.len() == 3 && log.data@.len() < 128 ==> r == Err::<
                (),
                AMMError,
            >(AMMError::DecodeError(DecodeError::Overrun))
            &&& swap && log.topics@.len() == 3 && log.data@.len() < 192 ==> r == Err::<
                (),
                AMMError,
            >(AMMError::DecodeError(DecodeError::Overrun))
        }),
        r is Err ==> after == before,
{
    lemma_followed_events_differ();
}

/// A log can be followed unless it has no topic, or is a decodable change of a position by an amount
/// beyond 128 bits, or one that inverts a mark in the bitmap of a pool without a tick spacing.
pub proof fn law_syncable_logs(
    pool: UniswapV4Pool,
    log: Log,
    tick_lower: i32,
    tick_upper: i32,
    delta: int,
)
    requires
        log.data@.len() >= 128 ==> {
            &&& -0x80_0000 <= tick_lower < 0x80_0000
            &&& tick_lower as int % 0x100_0000 == word::be_value(log.data@.subrange(0, 32))
                % 0x100_0000
            &&& -0x80_0000 <= tick_upper < 0x80_0000
            &&& tick_upper as int % 0x100_0000 == word::be_value(log.data@.subrange(32, 64))
                % 0x100_0000
            &&& -(pow2(255) as int) <= delta < pow2(255)
            &&& delta % pow2(256) as int == word::be_value(log.data@.subrange(64, 96))
        },
    ensures
        log.topics@.len() == 0 ==> !pool.can_sync(log),
        log.topics@.len() > 0 && log.topics@[0]@ != MODIFY_LIQUIDITY_SIGNATURE_HASH@
            ==> pool.can_sync(log),
        log.topics@.len() > 0 && (log.topics@.len() != 3 || log.data@.len() < 128)
            ==> pool.can_sync(log),
        log.topics@.len() == 3 && log.topics@[0]@ == MODIFY_LIQUIDITY_SIGNATURE_HASH@
            && log.data@.len() >= 128 ==> (pool.can_sync(log) <==> i128::MIN <= delta <= i128::MAX
            && (pool.pool_data.tick_spacing != 0 || !pool.pool_data.flips_marks(
            tick_lower,
            tick_upper,
            delta,
        ))),
{
    lemma2_to64();
    events::law_event_shapes(log);
    if log.data@.len() >= 128 {
        events::law_word_fields(log.data@, 0);
        events::law_word_fields(log.data@, 1);
        events::law_word_fields(log.data@, 2);
        let w0 = events::word_int24(events::data_word(log.data@, 0));
        let w1 = events::word_int24(events::data_word(log.data@, 1));
        let w2 = events::word_int256(events::data_word(log.data@, 2));
        word::lemma_signed_unique(tick_lower as int, w0, 24);
        word::lemma_signed_unique(tick_upper as int, w1, 24);
        word::lemma_signed_unique(delta, w2, 256);
    }
}

} // verus!
