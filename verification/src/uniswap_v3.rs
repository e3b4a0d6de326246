//! Concentrated-liquidity pool data: tokens, price, ticks and the bitmap of initialized ticks.
use std::collections::HashMap;

use vstd::arithmetic::div_mod::*;
use vstd::arithmetic::power2::*;
use vstd::prelude::*;

use crate::word::{self, Address, U256};

verus! {

broadcast use vstd::std_specs::hash::group_hash_axioms;

/// The lowest tick of a pool.
pub open spec fn min_tick_value() -> int {
    -887272
}

/// The highest tick of a pool.
pub open spec fn max_tick_value() -> int {
    887272
}

/// Reads `uniswap_v3_math::tick_math::MIN_TICK`. Trusted: its value.
#[verifier::external_body]
fn min_tick() -> (r: i32)
    ensures
        r == min_tick_value(),
{
    uniswap_v3_math::tick_math::MIN_TICK
}

/// Reads `uniswap_v3_math::tick_math::MAX_TICK`. Trusted: its value.
#[verifier::external_body]
fn max_tick() -> (r: i32)
    ensures
        r == max_tick_value(),
{
    uniswap_v3_math::tick_math::MAX_TICK
}

/// The magnitude of an integer.
pub open spec fn magnitude(v: int) -> int {
    if v < 0 {
        -v
    } else {
        v
    }
}

/// The quotient of `a` by `b`, rounded toward zero.
pub open spec fn trunc_div(a: int, b: int) -> int {
    let q = magnitude(a) / magnitude(b);
    if (a < 0) == (b < 0) {
        q
    } else {
        -q
    }
}

/// The index of a tick among the multiples of the spacing: the quotient rounded toward zero,
/// less one for a negative tick that is no multiple.
pub open spec fn compressed_tick(tick: int, tick_spacing: int) -> int {
    trunc_div(tick, tick_spacing) - if tick < 0 && magnitude(tick) % magnitude(tick_spacing) != 0 {
        1int
    } else {
        0
    }
}

/// With a positive spacing, a tick's index is the quotient rounded down.
pub proof fn lemma_compressed_tick_floor(tick: int, tick_spacing: int)
    requires
        tick_spacing > 0,
    ensures
        compressed_tick(tick, tick_spacing) == tick / tick_spacing,
{
    if tick < 0 {
        let n = -tick;
        let s = tick_spacing;
        let q = n / s;
        let r = n % s;
        lemma_fundamental_div_mod(n, s);
        lemma_mod_bound(n, s);
        if r == 0 {
            assert(tick == (-q) * s + 0) by (nonlinear_arith)
                requires
                    -tick == s * q + r,
                    r == 0,
            ;
            lemma_fundamental_div_mod_converse(tick, s, -q, 0);
        } else {
            assert(tick == (-q - 1) * s + (s - r)) by (nonlinear_arith)
                requires
                    -tick == s * q + r,
            ;
            lemma_fundamental_div_mod_converse(tick, s, -q - 1, s - r);
        }
    }
}

/// The bitmap word in which a tick's index falls.
pub open spec fn word_of_tick(tick: int, tick_spacing: int) -> int {
    compressed_tick(tick, tick_spacing) / 256
}

/// The magnitude of a 32-bit integer.
fn magnitude_of(v: i32) -> (r: u32)
    ensures
        r == magnitude(v as int),
{
    if v < 0 {
        (-(v + 1)) as u32 + 1
    } else {
        v as u32
    }
}

/// The quotient of two 32-bit integers, rounded toward zero.
pub(crate) fn truncating_quotient(a: i32, b: i32) -> (r: i64)
    requires
        b != 0,
    ensures
        r == trunc_div(a as int, b as int),
        -0x8000_0000 <= r <= 0x8000_0000,
{
    let q: u32 = magnitude_of(a) / magnitude_of(b);
    proof {
        let n = magnitude(a as int);
        let d = magnitude(b as int);
        lemma_div_is_ordered_by_denominator(n, 1, d);
    }
    if (a < 0) == (b < 0) {
        q as i64
    } else {
        -(q as i64)
    }
}

/// The bitmap word of `tick`, for a pool whose ticks are `tick_spacing` apart.
pub fn tick_to_word(tick: i32, tick_spacing: i32) -> (r: i32)
    requires
        tick_spacing != 0,
    ensures
        r == word_of_tick(tick as int, tick_spacing as int),
{
    let mut compressed: i64 = truncating_quotient(tick, tick_spacing);
    if tick < 0 && magnitude_of(tick) % magnitude_of(tick_spacing) != 0 {
        compressed = compressed - 1;
    }
    if compressed >= 0 {
        (compressed / 256) as i32
    } else {
        (-((-(compressed + 1)) / 256) - 1) as i32
    }
}

/// A token of a pair.
#[derive(Debug, Clone, Copy, PartialEq, Eq)]
pub struct Token {
    pub address: Address,
    pub decimals: u8,
}

/// What a pool records of a tick.
#[derive(Debug, Clone, Copy, PartialEq, Eq)]
pub struct Info {
    /// Liquidity of all the positions that end at the tick.
    pub liquidity_gross: u128,
    /// Liquidity that is added when the price crosses the tick upward.
    pub liquidity_net: i128,
    pub initialized: bool,
}

/// A concentrated-liquidity pool.
#[derive(Debug, Clone)]
pub struct UniswapV3Pool {
    pub address: Address,
    pub token_a: Token,
    pub token_b: Token,
    pub liquidity: u128,
    pub sqrt_price: U256,
    pub fee: u32,
    pub tick: i32,
    pub tick_spacing: i32,
    pub tick_bitmap: HashMap<i16, U256>,
    pub ticks: HashMap<i32, Info>,
}

/// Whether the bitmap marks the multiple of the spacing with index `c` as initialized.
pub open spec fn index_is_set(bitmap: Map<i16, nat>, c: int) -> bool {
    let word_pos = (c / 256) as i16;
    bitmap.contains_key(word_pos) && word::bit_of(bitmap[word_pos], (c % 256) as nat)
}

/// The ticks whose indices from `lo` up to but not including `hi` are marked, in ascending order
/// of the index.
pub open spec fn set_ticks(bitmap: Map<i16, nat>, tick_spacing: int, lo: int, hi: int) -> Seq<int>
    decreases hi - lo,
{
    if hi <= lo {
        Seq::empty()
    } else {
        let below = set_ticks(bitmap, tick_spacing, lo, hi - 1);
        if index_is_set(bitmap, hi - 1) {
            below.push((hi - 1) * tick_spacing)
        } else {
            below
        }
    }
}

/// The first index of the bitmap words that a pool's ticks can fall in.
pub open spec fn first_index(tick_spacing: int) -> int {
    word_of_tick(min_tick_value(), tick_spacing) * 256
}

/// The index past the last one of the bitmap words that a pool's ticks can fall in.
pub open spec fn end_index(tick_spacing: int) -> int {
    word_of_tick(max_tick_value(), tick_spacing) * 256 + 256
}

/// The bitmap words of the lowest and highest tick have 16-bit positions, whatever the spacing.
proof fn lemma_word_range(tick: int, tick_spacing: int)
    requires
        tick_spacing != 0,
        min_tick_value() <= tick <= max_tick_value(),
    ensures
        -3466 <= word_of_tick(tick, tick_spacing) <= 3465,
{
    let n = magnitude(tick);
    let d = magnitude(tick_spacing);
    lemma_div_is_ordered_by_denominator(n, 1, d);
    lemma_div_pos_is_pos(n, d);
}

impl UniswapV3Pool {
    /// The bitmap of initialized ticks, as integers by word position.
    pub open spec fn bitmap(&self) -> Map<i16, nat> {
        self.tick_bitmap@.map_values(|w: U256| w@)
    }

    /// Whether every tick that the bitmap marks fits in 24 bits.
    pub open spec fn set_ticks_fit(&self) -> bool {
        forall|c: int|
            first_index(self.tick_spacing as int) <= c < end_index(self.tick_spacing as int)
                && #[trigger] index_is_set(self.bitmap(), c) ==> crate::encoding::fits_int24(
                c * self.tick_spacing,
            )
    }

    /// The ticks that the bitmap marks.
    pub open spec fn initialized_ticks_spec(&self) -> Seq<int> {
        set_ticks(
            self.bitmap(),
            self.tick_spacing as int,
            first_index(self.tick_spacing as int),
            end_index(self.tick_spacing as int),
        )
    }

    /// A pool of which nothing but its address is known.
    pub fn new(address: Address) -> (r: UniswapV3Pool)
        ensures
            r.address == address,
            r.token_a.address@ == Seq::new(20, |i: int| 0u8),
            r.token_a.decimals == 0,
            r.token_b.address@ == Seq::new(20, |i: int| 0u8),
            r.token_b.decimals == 0,
            r.liquidity == 0,
            r.sqrt_price@ == 0,
            r.fee == 0,
            r.tick == 0,
            r.tick_spacing == 0,
            r.tick_bitmap@ == Map::<i16, U256>::empty(),
            r.ticks@ == Map::<i32, Info>::empty(),
    {
        let unknown = Token { address: [0u8; 20], decimals: 0 };
        UniswapV3Pool {
            address,
            token_a: unknown,
            token_b: unknown,
            liquidity: 0,
            sqrt_price: U256::zero(),
            fee: 0,
            tick: 0,
            tick_spacing: 0,
            tick_bitmap: HashMap::new(),
            ticks: HashMap::new(),
        }
    }

    /// The two tokens' addresses.
    pub fn tokens(&self) -> (r: Vec<Address>)
        ensures
            r@ == seq![self.token_a.address, self.token_b.address],
    {
        let mut r: Vec<Address> = Vec::new();
        r.push(self.token_a.address);
        r.push(self.token_b.address);
        r
    }

    /// The first and last bitmap word that the pool's ticks can fall in.
    pub fn word_range(&self) -> (r: (i32, i32))
        requires
            self.tick_spacing != 0,
        ensures
            r.0 == word_of_tick(min_tick_value(), self.tick_spacing as int),
            r.1 == word_of_tick(max_tick_value(), self.tick_spacing as int),
            -3466 <= r.0 <= 3465,
            -3466 <= r.1 <= 3465,
    {
        proof {
            lemma_word_range(min_tick_value(), self.tick_spacing as int);
            lemma_word_range(max_tick_value(), self.tick_spacing as int);
        }
        let min_word: i32 = tick_to_word(min_tick(), self.tick_spacing);
        let max_word: i32 = tick_to_word(max_tick(), self.tick_spacing);
        (min_word, max_word)
    }

    /// The ticks that the bitmap marks as initialized, in ascending order of their index.
    pub fn initialized_ticks(&self) -> (r: Vec<i32>)
        requires
            self.tick_spacing != 0,
            self.set_ticks_fit(),
        ensures
            r@.map_values(|t: i32| t as int) == self.initialized_ticks_spec(),
    {
        let (min_word, max_word) = self.word_range();
        let ghost s = self.tick_spacing as int;
        let ghost lo = first_index(s);
        let ghost as_int = |t: i32| t as int;
        let mut r: Vec<i32> = Vec::new();
        let mut w: i32 = min_word;
        assert(r@.map_values(as_int) =~= Seq::<int>::empty());
        while w <= max_word
            invariant
                self.tick_spacing != 0,
                self.set_ticks_fit(),
                s == self.tick_spacing,
                -3466 <= min_word <= w <= 3466,
                min_word <= max_word ==> w <= max_word + 1,
                min_word > max_word ==> w == min_word,
                max_word <= 3465,
                lo == first_index(s),
                lo == min_word * 256,
                end_index(s) == max_word * 256 + 256,
                as_int == (|t: i32| t as int),
                r@.map_values(as_int) == set_ticks(self.bitmap(), s, lo, w * 256),
            decreases max_word + 1 - w,
        {
            match self.tick_bitmap.get(&(w as i16)) {
                Some(bitmap) => {
                    if !bitmap.is_zero() {
                        self.push_set_ticks(w, bitmap, &mut r, Ghost(lo));
                    } else {
                        proof {
                            assert(self.bitmap()[w as i16] == 0);
                            lemma_word_without_bits(self.bitmap(), s, lo, w as int);
                        }
                    }
                },
                None => {
                    proof {
                        lemma_word_without_bits(self.bitmap(), s, lo, w as int);
                    }
                },
            }
            w = w + 1;
        }
        proof {
            if min_word > max_word {
                assert(set_ticks(self.bitmap(), s, lo, w * 256) =~= Seq::<int>::empty());
            }
        }
        r
    }

    /// Whether the tick spacing is known and every tick that the bitmap marks fits in 24 bits.
    pub fn has_known_ticks(&self) -> (r: bool)
        ensures
            r == (self.tick_spacing != 0 && self.set_ticks_fit()),
    {
        if self.tick_spacing == 0 {
            return false;
        }
        let (min_word, max_word) = self.word_range();
        let ghost s = self.tick_spacing as int;
        let mut w: i32 = min_word;
        while w <= max_word
            invariant
                self.tick_spacing != 0,
                s == self.tick_spacing,
                -3466 <= min_word <= w <= 3466,
                max_word <= 3465,
                first_index(s) == min_word * 256,
                end_index(s) == max_word * 256 + 256,
                forall|c: int|
                    first_index(s) <= c < w * 256 && #[trigger] index_is_set(self.bitmap(), c)
                        ==> crate::encoding::fits_int24(c * s),
            decreases max_word + 1 - w,
        {
            match self.tick_bitmap.get(&(w as i16)) {
                Some(bitmap) => {
                    if !self.word_ticks_fit(w, bitmap) {
                        return false;
                    }
                },
                None => {},
            }
            proof {
                assert forall|c: int|
                    first_index(s) <= c < w * 256 + 256 && #[trigger] index_is_set(
                        self.bitmap(),
                        c,
                    ) implies crate::encoding::fits_int24(c * s) by {
                    if c >= w * 256 {
                        assert(c / 256 == w);
                        let i = c - w * 256;
                        assert(c % 256 == i);
                        assert(w * 256 + i == c);
                    }
                }
            }
            w = w + 1;
        }
        true
    }

    /// Whether the ticks that one bitmap word marks fit in 24 bits.
    fn word_ticks_fit(&self, w: i32, bitmap: &U256) -> (r: bool)
        requires
            -3466 <= w <= 3465,
            self.tick_bitmap@.contains_key(w as i16),
            self.tick_bitmap@[w as i16] == *bitmap,
        ensures
            r <==> forall|c: int|
                w * 256 <= c < w * 256 + 256 && #[trigger] index_is_set(self.bitmap(), c)
                    ==> crate::encoding::fits_int24(c * self.tick_spacing),
    {
        let mut i: i32 = 0;
        while i < 256
            invariant
                0 <= i <= 256,
                -3466 <= w <= 3465,
                self.tick_bitmap@.contains_key(w as i16),
                self.tick_bitmap@[w as i16] == *bitmap,
                forall|c: int|
                    w * 256 <= c < w * 256 + i && #[trigger] index_is_set(self.bitmap(), c)
                        ==> crate::encoding::fits_int24(c * self.tick_spacing),
            decreases 256 - i,
        {
            let ghost c = w * 256 + i;
            assert(c / 256 == w && c % 256 == i);
            assert(self.bitmap()[w as i16] == bitmap@);
            if bitmap.bit(i as usize) {
                assert(index_is_set(self.bitmap(), c));
                let index: i64 = (w * 256 + i) as i64;
                proof {
                    let s = self.tick_spacing as int;
                    assert(-0x2000_0000_0000_0000 <= index * s <= 0x2000_0000_0000_0000)
                        by (nonlinear_arith)
                        requires
                            -1_000_000 <= index <= 1_000_000,
                            -0x8000_0000 <= s <= 0x7fff_ffff,
                    ;
                }
                let tick: i64 = index * self.tick_spacing as i64;
                if tick < -0x80_0000 || tick >= 0x80_0000 {
                    return false;
                }
            }
            i = i + 1;
        }
        true
    }

    /// Appends the ticks that one bitmap word marks.
    fn push_set_ticks(&self, w: i32, bitmap: &U256, r: &mut Vec<i32>, Ghost(lo): Ghost<int>)
        requires
            self.set_ticks_fit(),
            -3466 <= w <= 3465,
            lo == first_index(self.tick_spacing as int),
            lo <= w * 256,
            w * 256 + 256 <= end_index(self.tick_spacing as int),
            self.tick_bitmap@.contains_key(w as i16),
            self.tick_bitmap@[w as i16] == *bitmap,
            old(r)@.map_values(|t: i32| t as int) == set_ticks(
                self.bitmap(),
                self.tick_spacing as int,
                lo,
                w * 256,
            ),
        ensures
            final(r)@.map_values(|t: i32| t as int) == set_ticks(
                self.bitmap(),
                self.tick_spacing as int,
                lo,
                w * 256 + 256,
            ),
    {
        let ghost s = self.tick_spacing as int;
        let ghost as_int = |t: i32| t as int;
        let mut i: i32 = 0;
        while i < 256
            invariant
                self.set_ticks_fit(),
                s == self.tick_spacing,
                0 <= i <= 256,
                -3466 <= w <= 3465,
                lo == first_index(s),
                lo <= w * 256,
                w * 256 + 256 <= end_index(s),
                self.tick_bitmap@.contains_key(w as i16),
                self.tick_bitmap@[w as i16] == *bitmap,
                as_int == (|t: i32| t as int),
                r@.map_values(as_int) == set_ticks(self.bitmap(), s, lo, w * 256 + i),
            decreases 256 - i,
        {
            let ghost c = w * 256 + i;
            assert(c / 256 == w && c % 256 == i);
            assert(self.bitmap()[w as i16] == bitmap@);
            if bitmap.bit(i as usize) {
                proof {
                    assert(index_is_set(self.bitmap(), c));
                    assert(set_ticks(self.bitmap(), s, lo, c + 1) == set_ticks(
                        self.bitmap(),
                        s,
                        lo,
                        c,
                    ).push(c * s));
                }
                let tick: i32 = (w * 256 + i) * self.tick_spacing;
                r.push(tick);
                assert(r@.map_values(as_int) =~= set_ticks(self.bitmap(), s, lo, c + 1));
            } else {
                assert(!index_is_set(self.bitmap(), c));
                assert(set_ticks(self.bitmap(), s, lo, c + 1) == set_ticks(
                    self.bitmap(),
                    s,
                    lo,
                    c,
                ));
            }
            i = i + 1;
        }
    }
}

/// A bitmap word that is missing or zero contributes no ticks.
proof fn lemma_word_without_bits(bitmap: Map<i16, nat>, tick_spacing: int, lo: int, w: int)
    requires
        -3466 <= w <= 3465,
        lo <= w * 256,
        !bitmap.contains_key(w as i16) || bitmap[w as i16] == 0,
    ensures
        set_ticks(bitmap, tick_spacing, lo, w * 256 + 256) == set_ticks(
            bitmap,
            tick_spacing,
            lo,
            w * 256,
        ),
{
    lemma_no_bits_up_to(bitmap, tick_spacing, lo, w, 256);
}

/// The first `n` digits of a bitmap word that is missing or zero contribute no ticks.
proof fn lemma_no_bits_up_to(bitmap: Map<i16, nat>, tick_spacing: int, lo: int, w: int, n: int)
    requires
        0 <= n <= 256,
        -3466 <= w <= 3465,
        lo <= w * 256,
        !bitmap.contains_key(w as i16) || bitmap[w as i16] == 0,
    ensures
        set_ticks(bitmap, tick_spacing, lo, w * 256 + n) == set_ticks(
            bitmap,
            tick_spacing,
            lo,
            w * 256,
        ),
    decreases n,
{
    if n > 0 {
        lemma_no_bits_up_to(bitmap, tick_spacing, lo, w, n - 1);
        let c = w * 256 + n - 1;
        assert(c / 256 == w && c % 256 == n - 1);
        lemma_pow2_pos((n - 1) as nat);
        lemma_div_of0(pow2((n - 1) as nat) as int);
        assert(!index_is_set(bitmap, c));
    }
}

/// The marked ticks are exactly the marked multiples of the spacing; with a positive spacing
/// they come in strictly ascending order, so none comes twice.
pub proof fn law_set_ticks_exact(bitmap: Map<i16, nat>, tick_spacing: int, lo: int, hi: int)
    ensures
        forall|t: int|
            set_ticks(bitmap, tick_spacing, lo, hi).contains(t) <==> exists|c: int|
                lo <= c < hi && #[trigger] index_is_set(bitmap, c) && t == c * tick_spacing,
        tick_spacing > 0 ==> forall|i: int, j: int|
            0 <= i < j < set_ticks(bitmap, tick_spacing, lo, hi).len() ==> set_ticks(
                bitmap,
                tick_spacing,
                lo,
                hi,
            )[i] < set_ticks(bitmap, tick_spacing, lo, hi)[j],
        tick_spacing > 0 ==> forall|i: int|
            0 <= i < set_ticks(bitmap, tick_spacing, lo, hi).len() ==> set_ticks(
                bitmap,
                tick_spacing,
                lo,
                hi,
            )[i] < hi * tick_spacing,
    decreases hi - lo,
{
    let all = set_ticks(bitmap, tick_spacing, lo, hi);
    if hi > lo {
        law_set_ticks_exact(bitmap, tick_spacing, lo, hi - 1);
        let below = set_ticks(bitmap, tick_spacing, lo, hi - 1);
        let c0 = hi - 1;
        assert((hi - 1) * tick_spacing == hi * tick_spacing - tick_spacing) by (nonlinear_arith);
        assert forall|t: int| all.contains(t) <==> exists|c: int|
            lo <= c < hi && #[trigger] index_is_set(bitmap, c) && t == c * tick_spacing by {
            if all.contains(t) {
                let k = choose|k: int| 0 <= k < all.len() && all[k] == t;
                if k < below.len() {
                    assert(below[k] == t);
                    assert(below.contains(t));
                } else {
                    assert(index_is_set(bitmap, c0));
                }
            }
            if exists|c: int|
                lo <= c < hi && #[trigger] index_is_set(bitmap, c) && t == c * tick_spacing {
                let c = choose|c: int|
                    lo <= c < hi && #[trigger] index_is_set(bitmap, c) && t == c * tick_spacing;
                if c < c0 {
                    assert(below.contains(t));
                    let k = choose|k: int| 0 <= k < below.len() && below[k] == t;
                    assert(all[k] == t);
                } else {
                    assert(all[all.len() - 1] == t);
                }
            }
        }
    }
}

/// With a spacing that the pool manager allows, every tick that a bitmap can mark fits in 24 bits.
pub proof fn law_allowed_spacing_ticks_fit(pool: UniswapV3Pool)
    requires
        1 <= pool.tick_spacing <= 32767,
    ensures
        pool.set_ticks_fit(),
{
    let s = pool.tick_spacing as int;
    let m: int = 887272;
    lemma_compressed_tick_floor(m, s);
    lemma_compressed_tick_floor(-m, s);
    lemma_fundamental_div_mod(m, s);
    lemma_mod_bound(m, s);
    lemma_fundamental_div_mod(-m, s);
    lemma_mod_bound(-m, s);
    let top = m / s;
    let bottom = (-m) / s;
    assert(top * s <= m && m < (top + 1) * s) by (nonlinear_arith)
        requires
            m == s * top + m % s,
            0 <= m % s < s,
    ;
    assert(bottom * s <= -m && -m < (bottom + 1) * s) by (nonlinear_arith)
        requires
            -m == s * bottom + (-m) % s,
            0 <= (-m) % s < s,
    ;
    assert forall|c: int|
        first_index(s) <= c < end_index(s) && #[trigger] index_is_set(
            pool.bitmap(),
            c,
        ) implies crate::encoding::fits_int24(c * s) by {
        assert(bottom - 255 <= c <= top + 255);
        if top / 256 >= 1 {
            assert(s <= 3465) by (nonlinear_arith)
                requires
                    top >= 256,
                    top * s <= m,
                    m == 887272,
                    s >= 1,
            ;
            assert(c * s <= m + 255 * 3465) by (nonlinear_arith)
                requires
                    c <= top + 255,
                    top * s <= m,
                    1 <= s <= 3465,
            ;
        } else {
            assert(top >= 0) by (nonlinear_arith)
                requires
                    m < (top + 1) * s,
                    m == 887272,
                    s >= 1,
            ;
            assert(c <= 255);
            assert(c * s <= 255 * 32767) by (nonlinear_arith)
                requires
                    c <= 255,
                    1 <= s <= 32767,
            ;
        }
        if bottom < -256 {
            assert(s <= 3466) by (nonlinear_arith)
                requires
                    bottom <= -257,
                    -m < (bottom + 1) * s,
                    m == 887272,
                    s >= 1,
            ;
            assert(c * s >= -m - 256 * 3466) by (nonlinear_arith)
                requires
                    c >= bottom - 255,
                    -m < (bottom + 1) * s,
                    1 <= s <= 3466,
            ;
        } else {
            assert(c >= -256);
            assert(c * s >= -256 * 32767) by (nonlinear_arith)
                requires
                    c >= -256,
                    1 <= s <= 32767,
            ;
        }
    }
}

/// Whether `q` and `r` are the quotient and the remainder of a division that rounds toward zero: the
/// remainder is smaller than the divisor and has no other sign than the dividend.
pub open spec fn divides_toward_zero(a: int, b: int, q: int, r: int) -> bool {
    &&& a == q * b + r
    &&& a >= 0 ==> 0 <= r && (r < b || r < -b)
    &&& a < 0 ==> r <= 0 && (-r < b || -r < -b)
}

/// A quotient and a remainder that fit make up the division toward zero.
pub proof fn law_division_toward_zero(a: int, b: int, q: int, r: int)
    requires
        b != 0,
        divides_toward_zero(a, b, q, r),
    ensures
        trunc_div(a, b) == q,
        magnitude(r) == magnitude(a) % magnitude(b),
{
    let n = magnitude(a);
    let d = magnitude(b);
    let p = if (a < 0) == (b < 0) {
        q
    } else {
        -q
    };
    assert(n == p * d + magnitude(r)) by (nonlinear_arith)
        requires
            a == q * b + r,
            a >= 0 ==> 0 <= r,
            a < 0 ==> r <= 0,
            n == magnitude(a),
            d == magnitude(b),
            p == if (a < 0) == (b < 0) {
                q
            } else {
                -q
            },
    ;
    lemma_fundamental_div_mod_converse(n, d, p, magnitude(r));
}

/// The bitmap word of a tick, whatever the sign of the spacing: with the tick's quotient by the
/// spacing toward zero, less one where the remainder is negative, it is the one of the 256 indices
/// among which that number is.
pub proof fn law_tick_word_quotient(tick: int, tick_spacing: int, q: int, r: int)
    requires
        tick_spacing != 0,
        divides_toward_zero(tick, tick_spacing, q, r),
    ensures
        ({
            let index = if r < 0 {
                q - 1
            } else {
                q
            };
            let w = word_of_tick(tick, tick_spacing);
            256 * w <= index < 256 * w + 256
        }),
{
    law_division_toward_zero(tick, tick_spacing, q, r);
}

} // verus!
