//! Where the pool manager contract keeps a pool's state, and how its words are laid out.
use vstd::prelude::*;
use vstd::arithmetic::div_mod::*;
use vstd::arithmetic::power2::*;

use crate::encoding::{self, abi_encode_int24_word, abi_encode_words, keccak256};
use crate::word::{self, B256, U256};

verus! {

/// Slot of the `pools` mapping in the pool manager.
pub const POOLS_SLOT: u8 = 6;

/// Offset of the `ticks` mapping in a pool's state.
pub const TICKS_OFFSET: u8 = 4;

/// Offset of the `tickBitmap` mapping in a pool's state.
pub const TICK_BITMAP_OFFSET: u8 = 5;

/// Offset of the `positions` mapping in a pool's state.
pub const POSITIONS_OFFSET: u8 = 7;

/// The storage slot of a pool's state: its entry of the `pools` mapping.
pub open spec fn pool_state_slot(pool_id: Seq<u8>) -> Seq<u8> {
    encoding::keccak(pool_id + word::uint_word(POOLS_SLOT as nat))
}

/// The slot of a mapping that stands `offset` slots after a pool's state, modulo the size of
/// the storage.
pub open spec fn mapping_slot(pool_id: Seq<u8>, offset: u8) -> Seq<u8> {
    word::uint_word(word::be_value(pool_state_slot(pool_id)) + offset as nat)
}

/// The storage slot of the bitmap word that the mapping holds under `tick`.
pub open spec fn tick_bitmap_slot(pool_id: Seq<u8>, tick: int) -> Seq<u8> {
    encoding::keccak(
        word::int_word(tick) + mapping_slot(pool_id, TICK_BITMAP_OFFSET),
    )
}

/// The storage slot of what the pool records of `tick`.
pub open spec fn tick_info_slot(pool_id: Seq<u8>, tick: int) -> Seq<u8> {
    encoding::keccak(word::int_word(tick) + mapping_slot(pool_id, TICKS_OFFSET))
}

/// The storage slot of what the pool records of a position.
pub open spec fn position_info_slot(pool_id: Seq<u8>, position_key: Seq<u8>) -> Seq<u8> {
    encoding::keccak(position_key + mapping_slot(pool_id, POSITIONS_OFFSET))
}

/// The low 128 bits of a word: `and(value, 2**128 - 1)`.
pub open spec fn liquidity_gross(word: Seq<u8>) -> nat {
    word::be_value(word) % pow2(128)
}

/// The high 128 bits of a word, shifted down with their sign: `sar(128, value)`.
pub open spec fn liquidity_net(word: Seq<u8>) -> int {
    word::twos_complement(word::be_value(word), 256) / pow2(128) as int
}

/// The storage slot of the state of the pool `pool_id`.
pub fn get_pool_state_slot(pool_id: B256) -> (r: U256)
    ensures
        r.be@ == pool_state_slot(pool_id@),
{
    let slot = U256::from_byte(POOLS_SLOT);
    U256::from_be_bytes(keccak256(abi_encode_words(&pool_id, &slot).as_slice()))
}

/// The storage slot of the bitmap word that is kept under `tick`, a 24-bit signed integer.
pub fn get_tick_bitmap_slot(pool_id: B256, tick: i32) -> (r: U256)
    requires
        encoding::fits_int24(tick as int),
    ensures
        r.be@ == tick_bitmap_slot(pool_id@, tick as int),
{
    let state_slot = get_pool_state_slot(pool_id);
    let tick_bitmap_mapping = state_slot.wrapping_add(U256::from_byte(TICK_BITMAP_OFFSET));
    U256::from_be_bytes(keccak256(abi_encode_int24_word(tick, &tick_bitmap_mapping).as_slice()))
}

/// The storage slot of the liquidity recorded at `tick`, a 24-bit signed integer.
pub fn get_tick_info_slot(pool_id: B256, tick: i32) -> (r: U256)
    requires
        encoding::fits_int24(tick as int),
    ensures
        r.be@ == tick_info_slot(pool_id@, tick as int),
{
    let state_slot = get_pool_state_slot(pool_id);
    let ticks_mapping_slot = state_slot.wrapping_add(U256::from_byte(TICKS_OFFSET));
    U256::from_be_bytes(keccak256(abi_encode_int24_word(tick, &ticks_mapping_slot).as_slice()))
}

/// The storage slot of the position under `position_key`.
pub fn get_position_info_slot(pool_id: B256, position_key: B256) -> (r: U256)
    ensures
        r.be@ == position_info_slot(pool_id@, position_key@),
{
    let state_slot = get_pool_state_slot(pool_id);
    let position_mapping_slot = state_slot.wrapping_add(U256::from_byte(POSITIONS_OFFSET));
    U256::from_be_bytes(
        keccak256(abi_encode_words(&position_key, &position_mapping_slot).as_slice()),
    )
}

/// The two 128-bit halves of a word as numbers.
proof fn lemma_word_halves(word: Seq<u8>)
    requires
        word.len() == 32,
    ensures
        word::be_value(word.skip(16)) == liquidity_gross(word),
        word::twos_complement(word::be_value(word.take(16)), 128) == liquidity_net(
            word,
        ),
{
    let hi = word::be_value(word.take(16)) as int;
    let lo = word::be_value(word.skip(16)) as int;
    let p = pow2(128) as int;
    assert(word =~= word.take(16) + word.skip(16));
    word::lemma_be_value_append(word.take(16), word.skip(16));
    word::lemma_be_value_bound(word.take(16));
    word::lemma_be_value_bound(word.skip(16));
    let v = word::be_value(word) as int;
    lemma_fundamental_div_mod_converse(v, p, hi, lo);
    lemma_pow2_adds(128, 128);
    lemma_pow2_adds(127, 128);
    let h = pow2(127) as int;
    lemma_pow2_adds(127, 1);
    lemma2_to64();
    assert(p == 2 * h);
    if hi < h {
        assert(hi * p + lo < h * p) by (nonlinear_arith)
            requires
                hi < h,
                0 <= lo < p,
        ;
    } else {
        assert(hi * p + lo >= h * p) by (nonlinear_arith)
            requires
                hi >= h,
                0 <= lo,
                0 <= p,
        ;
        assert(hi * p + lo - p * p == (hi - p) * p + lo) by (nonlinear_arith);
        lemma_fundamental_div_mod_converse(v - p * p, p, hi - p, lo);
    }
}

/// The 16 bytes of a word from `start` on, as an unsigned integer.
pub(crate) fn be_u128(word: &B256, start: usize) -> (r: u128)
    requires
        start <= 16,
    ensures
        r == word::be_value(word@.subrange(start as int, start + 16)),
{
    let mut acc: u128 = 0;
    let mut i: usize = 0;
    proof {
        lemma2_to64();
        lemma_pow2_adds(64, 64);
        assert(word@.subrange(start as int, start as int) =~= Seq::<u8>::empty());
    }
    while i < 16
        invariant
            start <= 16,
            i <= 16,
            acc == word::be_value(word@.subrange(start as int, start + i)),
            pow2(128) == u128::MAX + 1,
        decreases 16 - i,
    {
        proof {
            let next = word@.subrange(start as int, start + i + 1);
            assert(next.drop_last() =~= word@.subrange(start as int, start + i));
            assert(next.last() == word@[start + i]);
            word::lemma_be_value_bound(next);
            if 8 * (i + 1) < 128 {
                lemma_pow2_strictly_increases(8 * (i + 1) as nat, 128);
            }
        }
        acc = acc * 256 + word[start + i] as u128;
        i = i + 1;
    }
    acc
}

/// The gross and the net liquidity that a tick's word packs.
pub fn decode_liquidity_gross_and_net(word: B256) -> (r: (u128, i128))
    ensures
        r.0 == liquidity_gross(word@),
        r.1 == liquidity_net(word@),
{
    let liquidity_gross = decode_liquidity(word);
    let high: u128 = be_u128(&word, 0);
    proof {
        assert(word@.subrange(0, 16) =~= word@.take(16));
        lemma_word_halves(word@);
        lemma2_to64();
        lemma_pow2_adds(64, 64);
        lemma_pow2_adds(64, 63);
        lemma2_to64_rest();
    }
    let liquidity_net: i128 = if high <= i128::MAX as u128 {
        high as i128
    } else {
        -((u128::MAX - high) as i128) - 1
    };
    (liquidity_gross, liquidity_net)
}

/// The liquidity in the low half of a word.
pub fn decode_liquidity(word: B256) -> (r: u128)
    ensures
        r == liquidity_gross(word@),
{
    let r: u128 = be_u128(&word, 16);
    proof {
        assert(word@.subrange(16, 32) =~= word@.skip(16));
        lemma_word_halves(word@);
    }
    r
}

/// Within a pool, the entries of different ticks and of different mappings are hashed from
/// different bytes.
pub proof fn law_tick_preimages_differ(
    pool_id: Seq<u8>,
    tick_a: int,
    offset_a: u8,
    tick_b: int,
    offset_b: u8,
)
    requires
        encoding::fits_int24(tick_a),
        encoding::fits_int24(tick_b),
        word::int_word(tick_a) + mapping_slot(pool_id, offset_a) == word::int_word(tick_b)
            + mapping_slot(pool_id, offset_b),
    ensures
        tick_a == tick_b,
        offset_a == offset_b,
{
    let slot_a = mapping_slot(pool_id, offset_a);
    let slot_b = mapping_slot(pool_id, offset_b);
    let whole_a = word::int_word(tick_a) + slot_a;
    let whole_b = word::int_word(tick_b) + slot_b;
    let m = pow2(256) as int;
    lemma_pow2_pos(256);
    let state = word::be_value(pool_state_slot(pool_id));
    lemma_mod_bound(tick_a, m);
    lemma_mod_bound(tick_b, m);
    word::lemma_be_bytes_value((tick_a % m) as nat, 32);
    word::lemma_be_bytes_value((tick_b % m) as nat, 32);
    word::lemma_be_bytes_value(state + offset_a as nat, 32);
    word::lemma_be_bytes_value(state + offset_b as nat, 32);
    assert(whole_a.take(32) =~= word::int_word(tick_a));
    assert(whole_b.take(32) =~= word::int_word(tick_b));
    assert(whole_a.skip(32) =~= slot_a);
    assert(whole_b.skip(32) =~= slot_b);
    word::lemma_int_word_injective(tick_a, tick_b);
    // the two slots are less than the modulus apart
    let x = (state + offset_a) as int;
    let y = (state + offset_b) as int;
    lemma2_to64();
    lemma_pow2_strictly_increases(16, 256);
    lemma_fundamental_div_mod(x, m);
    lemma_fundamental_div_mod(y, m);
    let d = x / m - y / m;
    assert(x - y == m * d) by (nonlinear_arith)
        requires
            x == m * (x / m) + x % m,
            y == m * (y / m) + y % m,
            x % m == y % m,
            d == x / m - y / m,
    ;
    assert(d == 0) by (nonlinear_arith)
        requires
            x - y == m * d,
            -256 < x - y < 256,
            m > 256,
    ;
}

/// A tick's word, read as a signed integer, is its net liquidity above its gross liquidity.
pub proof fn law_liquidity_word(word: Seq<u8>)
    requires
        word.len() == 32,
    ensures
        word::twos_complement(word::be_value(word), 256) == liquidity_net(word) * pow2(128)
            + liquidity_gross(word),
        0 <= liquidity_gross(word) < pow2(128),
        -(pow2(127) as int) <= liquidity_net(word) < pow2(127),
{
    lemma_word_halves(word);
    let p = pow2(128) as int;
    lemma_pow2_pos(128);
    lemma_pow2_adds(128, 128);
    lemma_pow2_adds(127, 1);
    lemma2_to64();
    let v = word::be_value(word) as int;
    let n = word::twos_complement(word::be_value(word), 256);
    lemma_mod_bound(v, p);
    lemma_fundamental_div_mod(n, p);
    word::lemma_be_value_bound(word.take(16));
    word::lemma_be_value_bound(word);
    if v >= pow2(255) {
        lemma_mod_multiples_vanish(-p, v, p);
        assert(p * (-p) + v == v - p * p) by (nonlinear_arith);
    }
    assert(liquidity_net(word) * p == p * liquidity_net(word)) by (nonlinear_arith);
}

/// Two sequences of two words each are equal where their words denote the same numbers.
proof fn lemma_two_words(p: Seq<u8>, first: Seq<u8>, second: Seq<u8>)
    requires
        p.len() == 64,
        first.len() == 32,
        second.len() == 32,
        word::be_value(p.take(32)) == word::be_value(first),
        word::be_value(p.skip(32)) == word::be_value(second),
    ensures
        p == first + second,
{
    word::lemma_be_value_injective(p.take(32), first);
    word::lemma_be_value_injective(p.skip(32), second);
    assert(p =~= p.take(32) + p.skip(32));
}

/// A pool's state is kept under the hash of 64 bytes: the pool's identifier, and a word that reads
/// six.
pub proof fn law_state_slot_preimage(pool_id: Seq<u8>, p: Seq<u8>)
    requires
        pool_id.len() == 32,
        p.len() == 64,
        p.take(32) == pool_id,
        word::be_value(p.skip(32)) == 6,
    ensures
        pool_state_slot(pool_id) == encoding::keccak(p),
{
    lemma2_to64();
    lemma_pow2_strictly_increases(8, 256);
    word::lemma_be_bytes_value(6, 32);
    lemma_small_mod(6, pow2(256));
    lemma_two_words(p, pool_id, word::uint_word(6));
}

/// A tick's entries are kept under hashes of 64 bytes: a word that reads the tick in two's
/// complement, and a word that reads a number behind the pool's state slot: four behind it for the
/// tick's liquidity, five behind it for a bitmap word.
pub proof fn law_tick_slot_preimages(pool_id: Seq<u8>, tick: int, p: Seq<u8>)
    requires
        encoding::fits_int24(tick),
        p.len() == 64,
        word::be_value(p.take(32)) == tick % pow2(256) as int,
    ensures
        word::be_value(p.skip(32)) == (word::be_value(pool_state_slot(pool_id)) + 4) % pow2(256)
            ==> tick_info_slot(pool_id, tick) == encoding::keccak(p),
        word::be_value(p.skip(32)) == (word::be_value(pool_state_slot(pool_id)) + 5) % pow2(256)
            ==> tick_bitmap_slot(pool_id, tick) == encoding::keccak(p),
{
    let state = word::be_value(pool_state_slot(pool_id));
    let m = pow2(256) as int;
    lemma_pow2_pos(256);
    lemma_mod_bound(tick, m);
    word::lemma_be_bytes_value((tick % m) as nat, 32);
    lemma_small_mod((tick % m) as nat, m as nat);
    word::lemma_be_bytes_value(state + 4, 32);
    word::lemma_be_bytes_value(state + 5, 32);
    if word::be_value(p.skip(32)) == (state + 4) % pow2(256) {
        lemma_two_words(p, word::int_word(tick), word::uint_word(state + 4));
    }
    if word::be_value(p.skip(32)) == (state + 5) % pow2(256) {
        lemma_two_words(p, word::int_word(tick), word::uint_word(state + 5));
    }
}

/// A position is kept under the hash of 64 bytes: the position's key, and a word that reads the
/// number seven behind the pool's state slot.
pub proof fn law_position_slot_preimage(pool_id: Seq<u8>, position_key: Seq<u8>, p: Seq<u8>)
    requires
        position_key.len() == 32,
        p.len() == 64,
        p.take(32) == position_key,
        word::be_value(p.skip(32)) == (word::be_value(pool_state_slot(pool_id)) + 7) % pow2(256),
    ensures
        position_info_slot(pool_id, position_key) == encoding::keccak(p),
{
    let state = word::be_value(pool_state_slot(pool_id));
    word::lemma_be_bytes_value(state + 7, 32);
    lemma_two_words(p, position_key, word::uint_word(state + 7));
}

} // verus!
