//! How a position that is opened, enlarged, reduced or closed changes a pool.
use vstd::prelude::*;

use crate::encoding;
use crate::error::{AMMError, UniswapV3Error};
use crate::uniswap_v3::{self, truncating_quotient, Info, UniswapV3Pool};
use crate::word::{self, U256};

verus! {

broadcast use vstd::std_specs::hash::group_hash_axioms;

/// What a pool records of a tick, a tick that it has not met counting as empty.
pub open spec fn info_at(ticks: Map<i32, Info>, tick: i32) -> Info {
    if ticks.contains_key(tick) {
        ticks[tick]
    } else {
        Info { liquidity_gross: 0, liquidity_net: 0, initialized: false }
    }
}

/// The net liquidity at a tick once a position that ends there changes by `delta`.
pub open spec fn net_after(info: Info, delta: int, upper: bool) -> int {
    if upper {
        info.liquidity_net - delta
    } else {
        info.liquidity_net + delta
    }
}

/// Whether a tick's record can take the change `delta` of a position that ends there.
pub open spec fn info_takes(info: Info, delta: int, upper: bool) -> bool {
    &&& 0 <= info.liquidity_gross + delta <= u128::MAX
    &&& i128::MIN <= net_after(info, delta, upper) <= i128::MAX
}

/// A tick's record once a position that ends there has changed by `delta`.
pub open spec fn info_after(info: Info, delta: int, upper: bool) -> Info {
    Info {
        liquidity_gross: (info.liquidity_gross + delta) as u128,
        liquidity_net: net_after(info, delta, upper) as i128,
        initialized: info.liquidity_gross == 0 || info.initialized,
    }
}

/// Whether the change `delta` makes an empty tick used or a used tick empty.
pub open spec fn flips(info: Info, delta: int) -> bool {
    (info.liquidity_gross + delta == 0) != (info.liquidity_gross == 0)
}

/// A number with binary digit `i` inverted.
pub open spec fn with_bit_flipped(v: nat, i: nat) -> nat {
    if word::bit_of(v, i) {
        (v - vstd::arithmetic::power2::pow2(i)) as nat
    } else {
        v + vstd::arithmetic::power2::pow2(i)
    }
}

/// The value of a bitmap word, a missing one counting as zero.
pub open spec fn word_value(bitmap: Map<i16, nat>, word_pos: i16) -> nat {
    if bitmap.contains_key(word_pos) {
        bitmap[word_pos]
    } else {
        0
    }
}

/// The bitmap with the mark of `tick` inverted.
pub open spec fn bitmap_flipped(bitmap: Map<i16, nat>, tick: int, tick_spacing: int) -> Map<
    i16,
    nat,
> {
    let index = uniswap_v3::trunc_div(tick, tick_spacing);
    let word_pos = (index / 256) as i16;
    bitmap.insert(word_pos, with_bit_flipped(word_value(bitmap, word_pos), (index % 256) as nat))
}

/// The tick records after the lower end of a position has changed by `delta`.
pub open spec fn ticks_after_lower(ticks: Map<i32, Info>, tick_lower: i32, delta: int) -> Map<
    i32,
    Info,
> {
    ticks.insert(tick_lower, info_after(info_at(ticks, tick_lower), delta, false))
}

/// The tick records after both ends of a position have changed by `delta`.
pub open spec fn ticks_after_both(
    ticks: Map<i32, Info>,
    tick_lower: i32,
    tick_upper: i32,
    delta: int,
) -> Map<i32, Info> {
    let t = ticks_after_lower(ticks, tick_lower, delta);
    t.insert(tick_upper, info_after(info_at(t, tick_upper), delta, true))
}

/// What a change of a position makes of its ends' records and of the active liquidity.
struct PositionChange {
    lower: Info,
    flipped_lower: bool,
    upper: Info,
    flipped_upper: bool,
    liquidity: u128,
}

/// Whether `after` is `before` once the position between two ticks has changed by `delta`.
pub open spec fn position_changed(
    before: UniswapV3Pool,
    after: UniswapV3Pool,
    tick_lower: i32,
    tick_upper: i32,
    delta: int,
) -> bool {
    &&& before.takes_position(tick_lower, tick_upper, delta)
    &&& after.same_but_liquidity(before)
    &&& after.liquidity == before.liquidity_after(tick_lower, tick_upper, delta)
    &&& after.ticks@ == before.ticks_after(tick_lower, tick_upper, delta)
    &&& after.bitmap() == before.bitmap_after(tick_lower, tick_upper, delta)
}

/// What a change of a position by `delta` makes of `before`, and what it returns: it is taken over,
/// or refused with nothing changed.
pub open spec fn position_outcome(
    before: UniswapV3Pool,
    after: UniswapV3Pool,
    tick_lower: i32,
    tick_upper: i32,
    delta: int,
    r: Result<(), AMMError>,
) -> bool {
    &&& r is Ok <==> before.takes_position(tick_lower, tick_upper, delta)
    &&& r is Ok ==> position_changed(before, after, tick_lower, tick_upper, delta)
    &&& r matches Err(e) ==> {
        &&& e == AMMError::UniswapV3Error(UniswapV3Error::LiquidityOutOfRange)
        &&& after == before
    }
}

impl UniswapV3Pool {
    /// Whether the change flips the lower end of the position.
    pub open spec fn flips_lower(&self, tick_lower: i32, delta: int) -> bool {
        flips(info_at(self.ticks@, tick_lower), delta)
    }

    /// Whether the change flips the upper end of the position.
    pub open spec fn flips_upper(&self, tick_lower: i32, tick_upper: i32, delta: int) -> bool {
        flips(info_at(ticks_after_lower(self.ticks@, tick_lower, delta), tick_upper), delta)
    }

    /// Whether the pool's price lies in the position's range.
    pub open spec fn in_range(&self, tick_lower: i32, tick_upper: i32) -> bool {
        tick_lower <= self.tick < tick_upper
    }

    /// Whether every amount that a change of a position touches stays in its range.
    pub open spec fn takes_position(&self, tick_lower: i32, tick_upper: i32, delta: int) -> bool {
        delta != 0 ==> {
            &&& info_takes(info_at(self.ticks@, tick_lower), delta, false)
            &&& info_takes(
                info_at(ticks_after_lower(self.ticks@, tick_lower, delta), tick_upper),
                delta,
                true,
            )
            &&& self.in_range(tick_lower, tick_upper) ==> 0 <= self.liquidity + delta <= u128::MAX
        }
    }

    /// The tick records after a change of a position: both ends take it, and an end that it
    /// empties is forgotten.
    pub open spec fn ticks_after(&self, tick_lower: i32, tick_upper: i32, delta: int) -> Map<
        i32,
        Info,
    > {
        let both = ticks_after_both(self.ticks@, tick_lower, tick_upper, delta);
        if delta == 0 {
            self.ticks@
        } else if delta > 0 {
            both
        } else {
            let kept = if self.flips_lower(tick_lower, delta) {
                both.remove(tick_lower)
            } else {
                both
            };
            if self.flips_upper(tick_lower, tick_upper, delta) {
                kept.remove(tick_upper)
            } else {
                kept
            }
        }
    }

    /// The bitmap after a change of a position: the mark of each end that it flips is inverted.
    pub open spec fn bitmap_after(&self, tick_lower: i32, tick_upper: i32, delta: int) -> Map<
        i16,
        nat,
    > {
        let s = self.tick_spacing as int;
        if delta == 0 {
            self.bitmap()
        } else {
            let lower_done = if self.flips_lower(tick_lower, delta) {
                bitmap_flipped(self.bitmap(), tick_lower as int, s)
            } else {
                self.bitmap()
            };
            if self.flips_upper(tick_lower, tick_upper, delta) {
                bitmap_flipped(lower_done, tick_upper as int, s)
            } else {
                lower_done
            }
        }
    }

    /// The active liquidity after a change of a position.
    pub open spec fn liquidity_after(&self, tick_lower: i32, tick_upper: i32, delta: int) -> int {
        if self.in_range(tick_lower, tick_upper) {
            self.liquidity + delta
        } else {
            self.liquidity as int
        }
    }

    /// Whether a change of a position inverts a mark in the bitmap: it is taken, and makes an empty
    /// end used or a used end empty.
    pub open spec fn flips_marks(&self, tick_lower: i32, tick_upper: i32, delta: int) -> bool {
        &&& self.takes_position(tick_lower, tick_upper, delta)
        &&& self.flips_lower(tick_lower, delta) || self.flips_upper(
            tick_lower,
            tick_upper,
            delta,
        )
    }

    /// Whether all but the liquidity accounting is as in `other`.
    pub open spec fn same_but_liquidity(&self, other: UniswapV3Pool) -> bool {
        &&& self.address == other.address
        &&& self.token_a == other.token_a
        &&& self.token_b == other.token_b
        &&& self.sqrt_price == other.sqrt_price
        &&& self.fee == other.fee
        &&& self.tick == other.tick
        &&& self.tick_spacing == other.tick_spacing
    }

    /// Changes the liquidity of the position between two ticks. Where an amount would leave its
    /// range, nothing is changed.
    pub fn modify_position(&mut self, tick_lower: i32, tick_upper: i32, liquidity_delta: i128) -> (r:
        Result<(), AMMError>)
        requires
            old(self).flips_marks(tick_lower, tick_upper, liquidity_delta as int) ==> old(self).tick_spacing
                != 0,
            encoding::fits_int24(tick_lower as int),
            encoding::fits_int24(tick_upper as int),
        ensures
            position_outcome(
                *old(self),
                *final(self),
                tick_lower,
                tick_upper,
                liquidity_delta as int,
                r,
            ),
    {
        if liquidity_delta == 0 {
            return Ok(());
        }
        let change = match self.position_change(tick_lower, tick_upper, liquidity_delta) {
            Some(change) => change,
            None => {
                return Err(AMMError::UniswapV3Error(UniswapV3Error::LiquidityOutOfRange));
            },
        };
        self.ticks.insert(tick_lower, change.lower);
        self.ticks.insert(tick_upper, change.upper);
        if change.flipped_lower {
            self.flip_tick(tick_lower);
        }
        if change.flipped_upper {
            self.flip_tick(tick_upper);
        }
        if liquidity_delta < 0 {
            if change.flipped_lower {
                self.ticks.remove(&tick_lower);
            }
            if change.flipped_upper {
                self.ticks.remove(&tick_upper);
            }
        }
        self.liquidity = change.liquidity;
        Ok(())
    }

    /// Whether a change of a position inverts a mark in the bitmap.
    pub fn inverts_marks(&self, tick_lower: i32, tick_upper: i32, liquidity_delta: i128) -> (r:
        bool)
        ensures
            r == self.flips_marks(tick_lower, tick_upper, liquidity_delta as int),
    {
        if liquidity_delta == 0 {
            return false;
        }
        match self.position_change(tick_lower, tick_upper, liquidity_delta) {
            Some(change) => change.flipped_lower || change.flipped_upper,
            None => false,
        }
    }

    /// What a change of a position other than by zero makes of the ends' records and of the active
    /// liquidity, where every amount stays in its range.
    fn position_change(&self, tick_lower: i32, tick_upper: i32, liquidity_delta: i128) -> (r: Option<
        PositionChange,
    >)
        requires
            liquidity_delta != 0,
        ensures
            r is Some <==> self.takes_position(tick_lower, tick_upper, liquidity_delta as int),
            r matches Some(change) ==> {
                let delta = liquidity_delta as int;
                let lower_done = ticks_after_lower(self.ticks@, tick_lower, delta);
                &&& change.lower == info_after(info_at(self.ticks@, tick_lower), delta, false)
                &&& change.upper == info_after(info_at(lower_done, tick_upper), delta, true)
                &&& change.flipped_lower == self.flips_lower(tick_lower, delta)
                &&& change.flipped_upper == self.flips_upper(tick_lower, tick_upper, delta)
                &&& change.liquidity == self.liquidity_after(tick_lower, tick_upper, delta)
            },
    {
        let lower_before = self.info(tick_lower);
        let (lower, flipped_lower) = match changed_info(lower_before, liquidity_delta, false) {
            Some(changed) => changed,
            None => {
                return None;
            },
        };
        let upper_before = if tick_upper == tick_lower {
            lower
        } else {
            self.info(tick_upper)
        };
        let (upper, flipped_upper) = match changed_info(upper_before, liquidity_delta, true) {
            Some(changed) => changed,
            None => {
                return None;
            },
        };
        let liquidity: u128 = if self.tick >= tick_lower && self.tick < tick_upper {
            match changed_amount(self.liquidity, liquidity_delta) {
                Some(liquidity) => liquidity,
                None => {
                    return None;
                },
            }
        } else {
            self.liquidity
        };
        Some(PositionChange { lower, flipped_lower, upper, flipped_upper, liquidity })
    }

    /// What the pool records of a tick.
    fn info(&self, tick: i32) -> (r: Info)
        ensures
            r == info_at(self.ticks@, tick),
    {
        match self.ticks.get(&tick) {
            Some(info) => *info,
            None => Info { liquidity_gross: 0, liquidity_net: 0, initialized: false },
        }
    }

    /// Inverts the mark of a tick in the bitmap.
    fn flip_tick(&mut self, tick: i32)
        requires
            old(self).tick_spacing != 0,
            encoding::fits_int24(tick as int),
        ensures
            final(self).same_but_liquidity(*old(self)),
            final(self).liquidity == old(self).liquidity,
            final(self).ticks == old(self).ticks,
            final(self).bitmap() == bitmap_flipped(
                old(self).bitmap(),
                tick as int,
                old(self).tick_spacing as int,
            ),
    {
        let index: i64 = truncating_quotient(tick, self.tick_spacing);
        proof {
            let n = uniswap_v3::magnitude(tick as int);
            let d = uniswap_v3::magnitude(self.tick_spacing as int);
            vstd::arithmetic::div_mod::lemma_div_is_ordered_by_denominator(n, 1, d);
            vstd::arithmetic::div_mod::lemma_div_pos_is_pos(n, d);
        }
        let word_pos: i64 = floor_256(index);
        let bit_pos: usize = (index - word_pos * 256) as usize;
        let key: i16 = word_pos as i16;
        let before = match self.tick_bitmap.get(&key) {
            Some(w) => *w,
            None => U256::zero(),
        };
        let after = before.flip_bit(bit_pos);
        self.tick_bitmap.insert(key, after);
        assert(self.bitmap() =~= bitmap_flipped(
            old(self).bitmap(),
            tick as int,
            old(self).tick_spacing as int,
        ));
    }
}

/// The quotient by 256, rounded down.
fn floor_256(v: i64) -> (r: i64)
    ensures
        r == v as int / 256,
{
    if v >= 0 {
        v / 256
    } else {
        -((-(v + 1)) / 256) - 1
    }
}

/// An amount after a signed change, where it stays in range.
fn changed_amount(amount: u128, delta: i128) -> (r: Option<u128>)
    ensures
        r is Some <==> 0 <= amount + delta <= u128::MAX,
        r matches Some(v) ==> v == amount + delta,
{
    if delta < 0 {
        let size: u128 = (-(delta + 1)) as u128 + 1;
        if amount < size {
            None
        } else {
            Some(amount - size)
        }
    } else {
        let size: u128 = delta as u128;
        if amount > u128::MAX - size {
            None
        } else {
            Some(amount + size)
        }
    }
}

/// A tick's record after a signed change and whether the tick flips, where the change fits.
fn changed_info(info: Info, delta: i128, upper: bool) -> (r: Option<(Info, bool)>)
    ensures
        r is Some <==> info_takes(info, delta as int, upper),
        r matches Some(changed) ==> changed.0 == info_after(info, delta as int, upper)
            && changed.1 == flips(info, delta as int),
{
    let liquidity_gross: u128 = match changed_amount(info.liquidity_gross, delta) {
        Some(v) => v,
        None => {
            return None;
        },
    };
    let net: Option<i128> = if upper {
        info.liquidity_net.checked_sub(delta)
    } else {
        info.liquidity_net.checked_add(delta)
    };
    match net {
        Some(liquidity_net) => {
            let initialized = info.liquidity_gross == 0 || info.initialized;
            let flipped = (liquidity_gross == 0) != (info.liquidity_gross == 0);
            Some((Info { liquidity_gross, liquidity_net, initialized }, flipped))
        },
        None => None,
    }
}

} // verus!
