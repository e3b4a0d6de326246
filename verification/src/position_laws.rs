//! What changes of positions keep, and what undoes them.
use vstd::arithmetic::div_mod::*;
use vstd::arithmetic::power2::*;
use vstd::prelude::*;

use crate::encoding;
use crate::error::{AMMError, UniswapV3Error};
use crate::position;
use crate::uniswap_v3::{self, UniswapV3Pool};
use crate::word;

verus! {

/// Inverting a binary digit inverts that digit and no other.
pub proof fn lemma_flipped_bits(v: nat, i: nat, j: nat)
    ensures
        word::bit_of(position::with_bit_flipped(v, i), j) == if i == j {
            !word::bit_of(v, j)
        } else {
            word::bit_of(v, j)
        },
{
    let w = position::with_bit_flipped(v, i);
    let p = pow2(i) as int;
    lemma_pow2_pos(i);
    lemma_pow2_pos(j);
    let q = v as int / p;
    let r = v as int % p;
    lemma_fundamental_div_mod(v as int, p);
    lemma_mod_bound(v as int, p);
    lemma_div_pos_is_pos(v as int, p);
    let q2 = if q % 2 == 1 {
        q - 1
    } else {
        q + 1
    };
    assert((q - 1) * p == p * q - p) by (nonlinear_arith);
    assert((q + 1) * p == p * q + p) by (nonlinear_arith);
    if q % 2 == 1 {
        assert((q - 1) * p >= 0) by (nonlinear_arith)
            requires
                q >= 1,
                p > 0,
        ;
    }
    assert(w == q2 * p + r);
    lemma_fundamental_div_mod_converse(w as int, p, q2, r);
    if i < j {
        let k = (j - i) as nat;
        lemma_pow2_adds(i, k);
        lemma_pow2_pos(k);
        lemma_div_denominator(v as int, p, pow2(k) as int);
        lemma_div_denominator(w as int, p, pow2(k) as int);
        let h = (k - 1) as nat;
        lemma_pow2_adds(1, h);
        lemma2_to64();
        lemma_pow2_pos(h);
        lemma_div_denominator(q, 2, pow2(h) as int);
        lemma_div_denominator(q2, 2, pow2(h) as int);
        assert(q / 2 == q2 / 2);
    } else if j < i {
        let k = (i - j) as nat;
        let t = pow2(j) as int;
        lemma_pow2_adds(j, k);
        let h = (k - 1) as nat;
        lemma_pow2_adds(1, h);
        lemma2_to64();
        let u = pow2(k) as int;
        assert(p == t * u);
        assert(u == 2 * pow2(h));
        lemma_hoist_over_denominator(v as int, u, t as nat);
        lemma_hoist_over_denominator(v as int, -u, t as nat);
        assert(u * t == t * u) by (nonlinear_arith);
        assert((-u) * t == -(t * u)) by (nonlinear_arith);
    }
}

/// The index of a tick on 24 bits lies in a bitmap word with a 16-bit position.
proof fn lemma_index_range(tick: int, tick_spacing: int)
    requires
        tick_spacing > 0,
        encoding::fits_int24(tick),
    ensures
        -0x80_0000 <= uniswap_v3::trunc_div(tick, tick_spacing) < 0x80_0000,
{
    let n = uniswap_v3::magnitude(tick);
    lemma_div_is_ordered_by_denominator(n, 1, tick_spacing);
    lemma_div_pos_is_pos(n, tick_spacing);
}

/// Inverting the mark of a tick inverts the mark of its index and of no other.
proof fn lemma_flipped_marks(bitmap: Map<i16, nat>, tick: int, tick_spacing: int, c: int)
    requires
        tick_spacing > 0,
        encoding::fits_int24(tick),
        -0x80_0000 <= c < 0x80_0000,
    ensures
        uniswap_v3::index_is_set(position::bitmap_flipped(bitmap, tick, tick_spacing), c) == (
        uniswap_v3::index_is_set(bitmap, c) != (c == uniswap_v3::trunc_div(tick, tick_spacing))),
{
    lemma_index_range(tick, tick_spacing);
    let index = uniswap_v3::trunc_div(tick, tick_spacing);
    let word_pos = (index / 256) as i16;
    let v = position::word_value(bitmap, word_pos);
    lemma_flipped_bits(v, (index % 256) as nat, (c % 256) as nat);
    if !bitmap.contains_key(word_pos) {
        lemma_pow2_pos((c % 256) as nat);
        lemma_div_of0(pow2((c % 256) as nat) as int);
        assert(!word::bit_of(0, (c % 256) as nat));
    }
}

/// Whether the pool records just the ticks that have liquidity, all of them multiples of the
/// spacing, and the bitmap marks just these.
pub open spec fn marks_match(pool: UniswapV3Pool) -> bool {
    &&& pool.tick_spacing > 0
    &&& forall|t: i32| #[trigger]
        pool.ticks@.contains_key(t) ==> encoding::fits_int24(t as int) && t as int
            % pool.tick_spacing as int == 0 && pool.ticks@[t].liquidity_gross > 0
    &&& forall|t: i32|
        encoding::fits_int24(t as int) && t as int % pool.tick_spacing as int == 0 ==> (
        #[trigger] pool.ticks@.contains_key(t) <==> uniswap_v3::index_is_set(
            pool.bitmap(),
            uniswap_v3::trunc_div(t as int, pool.tick_spacing as int),
        ))
}

/// Different multiples of the spacing have different indices.
proof fn lemma_multiple_index(a: int, b: int, s: int)
    requires
        s > 0,
        a % s == 0,
        b % s == 0,
        uniswap_v3::trunc_div(a, s) == uniswap_v3::trunc_div(b, s),
    ensures
        a == b,
{
    lemma_multiple(a, s);
    lemma_multiple(b, s);
}

/// A multiple of the spacing is its index times the spacing.
proof fn lemma_multiple(a: int, s: int)
    requires
        s > 0,
        a % s == 0,
    ensures
        a == uniswap_v3::trunc_div(a, s) * s,
{
    lemma_fundamental_div_mod(a, s);
    let q = a / s;
    if a < 0 {
        assert(-a == (-q) * s + 0) by (nonlinear_arith)
            requires
                a == s * q + a % s,
                a % s == 0,
        ;
        lemma_fundamental_div_mod_converse(-a, s, -q, 0);
        assert(q * s == s * q) by (nonlinear_arith);
    } else {
        assert(q * s == s * q) by (nonlinear_arith);
    }
}

/// A change of a position keeps the records and the bitmap in step.
pub proof fn law_marks_kept(
    before: UniswapV3Pool,
    after: UniswapV3Pool,
    tick_lower: i32,
    tick_upper: i32,
    delta: int,
)
    requires
        marks_match(before),
        position::position_changed(before, after, tick_lower, tick_upper, delta),
        tick_lower != tick_upper,
        encoding::fits_int24(tick_lower as int),
        encoding::fits_int24(tick_upper as int),
        tick_lower as int % before.tick_spacing as int == 0,
        tick_upper as int % before.tick_spacing as int == 0,
    ensures
        marks_match(after),
{
    if delta != 0 {
        let s = before.tick_spacing as int;
        let flips_lower = before.flips_lower(tick_lower, delta);
        let flips_upper = before.flips_upper(tick_lower, tick_upper, delta);
        assert(before.ticks@.contains_key(tick_lower) || !before.ticks@.contains_key(tick_lower));
        assert(before.ticks@.contains_key(tick_upper) || !before.ticks@.contains_key(tick_upper));
        let lower_done = if flips_lower {
            position::bitmap_flipped(before.bitmap(), tick_lower as int, s)
        } else {
            before.bitmap()
        };
        assert forall|t: i32|
            encoding::fits_int24(t as int) && t as int % s == 0 implies (
        #[trigger] after.ticks@.contains_key(t) <==> uniswap_v3::index_is_set(
            after.bitmap(),
            uniswap_v3::trunc_div(t as int, s),
        )) by {
            let c = uniswap_v3::trunc_div(t as int, s);
            lemma_index_range(t as int, s);
            lemma_flipped_marks(before.bitmap(), tick_lower as int, s, c);
            lemma_flipped_marks(lower_done, tick_upper as int, s, c);
            if c == uniswap_v3::trunc_div(tick_lower as int, s) {
                lemma_multiple_index(t as int, tick_lower as int, s);
            }
            if c == uniswap_v3::trunc_div(tick_upper as int, s) {
                lemma_multiple_index(t as int, tick_upper as int, s);
            }
            assert(before.ticks@.contains_key(t) <==> uniswap_v3::index_is_set(
                before.bitmap(),
                c,
            ));
        }
        assert forall|t: i32| #[trigger] after.ticks@.contains_key(t) implies encoding::fits_int24(
            t as int,
        ) && t as int % s == 0 && after.ticks@[t].liquidity_gross > 0 by {
            if t != tick_lower && t != tick_upper {
                assert(before.ticks@.contains_key(t));
            }
        }
    }
}

/// Opening a position and closing it again gives back the liquidity, the records and the marks of
/// the ticks, for a pool that records no tick without liquidity.
pub proof fn law_closing_undoes_opening(
    before: UniswapV3Pool,
    open: UniswapV3Pool,
    closed: UniswapV3Pool,
    tick_lower: i32,
    tick_upper: i32,
    delta: int,
)
    requires
        before.tick_spacing > 0,
        forall|t: i32| #[trigger]
            before.ticks@.contains_key(t) ==> before.ticks@[t].liquidity_gross > 0,
        delta > 0,
        tick_lower != tick_upper,
        encoding::fits_int24(tick_lower as int),
        encoding::fits_int24(tick_upper as int),
        position::position_changed(before, open, tick_lower, tick_upper, delta),
        closed.same_but_liquidity(open),
        closed.liquidity == open.liquidity_after(tick_lower, tick_upper, -delta),
        closed.ticks@ == open.ticks_after(tick_lower, tick_upper, -delta),
        closed.bitmap() == open.bitmap_after(tick_lower, tick_upper, -delta),
    ensures
        open.takes_position(tick_lower, tick_upper, -delta),
        closed.same_but_liquidity(before),
        closed.liquidity == before.liquidity,
        closed.ticks@ == before.ticks@,
        forall|c: int|
            -0x80_0000 <= c < 0x80_0000 ==> #[trigger] uniswap_v3::index_is_set(closed.bitmap(), c)
                == uniswap_v3::index_is_set(before.bitmap(), c),
{
    let s = before.tick_spacing as int;
    assert(before.ticks@.contains_key(tick_lower) || !before.ticks@.contains_key(tick_lower));
    assert(before.ticks@.contains_key(tick_upper) || !before.ticks@.contains_key(tick_upper));
    assert(closed.ticks@ =~= before.ticks@);
    let flips_lower = before.flips_lower(tick_lower, delta);
    let flips_upper = before.flips_upper(tick_lower, tick_upper, delta);
    assert(flips_lower == open.flips_lower(tick_lower, -delta));
    assert(flips_upper == open.flips_upper(tick_lower, tick_upper, -delta));
    let b1 = if flips_lower {
        position::bitmap_flipped(before.bitmap(), tick_lower as int, s)
    } else {
        before.bitmap()
    };
    let b2 = open.bitmap();
    let b3 = if flips_lower {
        position::bitmap_flipped(b2, tick_lower as int, s)
    } else {
        b2
    };
    assert forall|c: int| -0x80_0000 <= c < 0x80_0000 implies #[trigger] uniswap_v3::index_is_set(
        closed.bitmap(),
        c,
    ) == uniswap_v3::index_is_set(before.bitmap(), c) by {
        lemma_flipped_marks(before.bitmap(), tick_lower as int, s, c);
        lemma_flipped_marks(b1, tick_upper as int, s, c);
        lemma_flipped_marks(b2, tick_lower as int, s, c);
        lemma_flipped_marks(b3, tick_upper as int, s, c);
    }
}

/// A change of a position changes the active liquidity by as much where the pool's tick is at or
/// above the lower tick and below the upper tick, and nowhere else.
pub proof fn law_active_liquidity(
    before: UniswapV3Pool,
    after: UniswapV3Pool,
    tick_lower: i32,
    tick_upper: i32,
    delta: int,
)
    requires
        position::position_changed(before, after, tick_lower, tick_upper, delta),
    ensures
        tick_lower <= before.tick && before.tick < tick_upper ==> after.liquidity
            == before.liquidity + delta,
        before.tick < tick_lower ==> after.liquidity == before.liquidity,
        tick_upper <= before.tick ==> after.liquidity == before.liquidity,
        after.tick == before.tick,
        after.sqrt_price == before.sqrt_price,
        after.tick_spacing == before.tick_spacing,
        after.fee == before.fee,
        after.address == before.address,
        after.token_a == before.token_a,
        after.token_b == before.token_b,
{
}

/// A change of a position is taken over exactly where the gross liquidity of both ends, their net
/// liquidity, and the active liquidity of a position around the pool's tick stay in the ranges of
/// their types. A change by nothing always is.
pub proof fn law_position_taken(
    before: UniswapV3Pool,
    tick_lower: i32,
    tick_upper: i32,
    delta: int,
)
    requires
        tick_lower != tick_upper,
    ensures
        ({
            let ticks = before.ticks@;
            let gross_lower = if ticks.contains_key(tick_lower) {
                ticks[tick_lower].liquidity_gross as int
            } else {
                0
            };
            let net_lower = if ticks.contains_key(tick_lower) {
                ticks[tick_lower].liquidity_net as int
            } else {
                0
            };
            let gross_upper = if ticks.contains_key(tick_upper) {
                ticks[tick_upper].liquidity_gross as int
            } else {
                0
            };
            let net_upper = if ticks.contains_key(tick_upper) {
                ticks[tick_upper].liquidity_net as int
            } else {
                0
            };
            before.takes_position(tick_lower, tick_upper, delta) <==> delta == 0 || {
                &&& 0 <= gross_lower + delta <= u128::MAX
                &&& 0 <= gross_upper + delta <= u128::MAX
                &&& i128::MIN <= net_lower + delta <= i128::MAX
                &&& i128::MIN <= net_upper - delta <= i128::MAX
                &&& tick_lower <= before.tick && before.tick < tick_upper ==> 0 <= before.liquidity
                    + delta <= u128::MAX
            }
        }),
{
}

/// A change of a position adds to the gross liquidity of both ends, adds to the net liquidity of the
/// lower end and takes as much from that of the upper end. An end without liquidity that gets some
/// is recorded as initialized, one that loses all of it is forgotten, and no other tick changes.
pub proof fn law_position_records(
    before: UniswapV3Pool,
    after: UniswapV3Pool,
    tick_lower: i32,
    tick_upper: i32,
    delta: int,
    end: i32,
)
    requires
        position::position_changed(before, after, tick_lower, tick_upper, delta),
        tick_lower != tick_upper,
        end == tick_lower || end == tick_upper,
    ensures
        forall|t: i32|
            t != tick_lower && t != tick_upper ==> (#[trigger] after.ticks@.contains_key(t)
                <==> before.ticks@.contains_key(t)),
        forall|t: i32|
            t != tick_lower && t != tick_upper && before.ticks@.contains_key(t)
                ==> #[trigger] after.ticks@[t] == before.ticks@[t],
        delta == 0 ==> after.ticks@ == before.ticks@,
        ({
            let known = before.ticks@.contains_key(end);
            let gross = if known {
                before.ticks@[end].liquidity_gross as int
            } else {
                0
            };
            let net = if known {
                before.ticks@[end].liquidity_net as int
            } else {
                0
            };
            &&& delta != 0 && gross + delta == 0 ==> !after.ticks@.contains_key(end)
            &&& delta != 0 && gross + delta != 0 ==> {
                &&& after.ticks@.contains_key(end)
                &&& after.ticks@[end].liquidity_gross == gross + delta
                &&& end == tick_lower ==> after.ticks@[end].liquidity_net == net + delta
                &&& end == tick_upper ==> after.ticks@[end].liquidity_net == net - delta
                &&& gross == 0 ==> after.ticks@[end].initialized
                &&& gross != 0 ==> after.ticks@[end].initialized
                    == before.ticks@[end].initialized
            }
        }),
{
}

/// A change of a position inverts the bitmap's digit of an end whose gross liquidity becomes or
/// ceases to be zero, and no other digit. The index of an end is its quotient by the spacing toward
/// zero; its digit is that of the index modulo 256, in the word of the index's quotient.
pub proof fn law_position_digits(
    before: UniswapV3Pool,
    after: UniswapV3Pool,
    tick_lower: i32,
    tick_upper: i32,
    delta: int,
    lower: (int, int),
    upper: (int, int),
    c: int,
)
    requires
        position::position_changed(before, after, tick_lower, tick_upper, delta),
        before.tick_spacing > 0,
        tick_lower != tick_upper,
        encoding::fits_int24(tick_lower as int),
        encoding::fits_int24(tick_upper as int),
        uniswap_v3::divides_toward_zero(
            tick_lower as int,
            before.tick_spacing as int,
            lower.0,
            lower.1,
        ),
        uniswap_v3::divides_toward_zero(
            tick_upper as int,
            before.tick_spacing as int,
            upper.0,
            upper.1,
        ),
        -0x80_0000 <= c < 0x80_0000,
    ensures
        ({
            let ticks = before.ticks@;
            let gross_lower = if ticks.contains_key(tick_lower) {
                ticks[tick_lower].liquidity_gross as int
            } else {
                0
            };
            let gross_upper = if ticks.contains_key(tick_upper) {
                ticks[tick_upper].liquidity_gross as int
            } else {
                0
            };
            let pos = (c / 256) as i16;
            let bit = (c % 256) as nat;
            let was = before.tick_bitmap@.contains_key(pos) && before.tick_bitmap@[pos]@ % pow2(
                bit + 1,
            ) >= pow2(bit);
            let is = after.tick_bitmap@.contains_key(pos) && after.tick_bitmap@[pos]@ % pow2(
                bit + 1,
            ) >= pow2(bit);
            let flipped_lower = (gross_lower == 0) != (gross_lower + delta == 0);
            let flipped_upper = (gross_upper == 0) != (gross_upper + delta == 0);
            is != was <==> (flipped_lower && c == lower.0) != (flipped_upper && c == upper.0)
        }),
{
    let s = before.tick_spacing as int;
    let pos = (c / 256) as i16;
    let bit = (c % 256) as nat;
    uniswap_v3::law_division_toward_zero(tick_lower as int, s, lower.0, lower.1);
    uniswap_v3::law_division_toward_zero(tick_upper as int, s, upper.0, upper.1);
    lemma_digit(before, c);
    lemma_digit(after, c);
    let lower_done = if before.flips_lower(tick_lower, delta) {
        position::bitmap_flipped(before.bitmap(), tick_lower as int, s)
    } else {
        before.bitmap()
    };
    if delta != 0 {
        lemma_flipped_marks(before.bitmap(), tick_lower as int, s, c);
        lemma_flipped_marks(lower_done, tick_upper as int, s, c);
    }
}

/// A mark is a binary digit of a word of the bitmap.
proof fn lemma_digit(pool: UniswapV3Pool, c: int)
    ensures
        uniswap_v3::index_is_set(pool.bitmap(), c) <==> {
            let pos = (c / 256) as i16;
            let bit = (c % 256) as nat;
            pool.tick_bitmap@.contains_key(pos) && pool.tick_bitmap@[pos]@ % pow2(bit + 1)
                >= pow2(bit)
        },
{
    let pos = (c / 256) as i16;
    assert(pool.bitmap().contains_key(pos) == pool.tick_bitmap@.contains_key(pos));
    if pool.tick_bitmap@.contains_key(pos) {
        word::law_binary_digit(pool.tick_bitmap@[pos]@, (c % 256) as nat);
        assert(pool.bitmap()[pos] == pool.tick_bitmap@[pos]@);
    }
}

/// A position whose two ends are one tick counts there twice: its changes add twice to the tick's
/// gross liquidity and leave its net liquidity and the active liquidity as they are.
pub proof fn law_position_at_one_tick(
    before: UniswapV3Pool,
    after: UniswapV3Pool,
    tick: i32,
    delta: int,
)
    requires
        position::position_changed(before, after, tick, tick, delta),
        delta != 0,
    ensures
        after.liquidity == before.liquidity,
        forall|t: i32|
            t != tick ==> (#[trigger] after.ticks@.contains_key(t) <==> before.ticks@.contains_key(
                t,
            )),
        forall|t: i32|
            t != tick && before.ticks@.contains_key(t) ==> #[trigger] after.ticks@[t]
                == before.ticks@[t],
        ({
            let known = before.ticks@.contains_key(tick);
            let gross = if known {
                before.ticks@[tick].liquidity_gross as int
            } else {
                0
            };
            let net = if known {
                before.ticks@[tick].liquidity_net as int
            } else {
                0
            };
            &&& 0 <= gross + 2 * delta <= u128::MAX
            &&& i128::MIN <= net + delta <= i128::MAX
            &&& gross + 2 * delta == 0 ==> !after.ticks@.contains_key(tick)
            &&& gross + 2 * delta != 0 ==> {
                &&& after.ticks@.contains_key(tick)
                &&& after.ticks@[tick].liquidity_gross == gross + 2 * delta
                &&& after.ticks@[tick].liquidity_net == net
                &&& after.ticks@[tick].initialized == (gross == 0
                    || before.ticks@[tick].initialized)
            }
        }),
{
}

/// Changing a position either changes the pool as far as the pool can take it, or fails because an
/// amount leaves its range, and changes nothing.
pub proof fn law_position_outcome(
    before: UniswapV3Pool,
    after: UniswapV3Pool,
    tick_lower: i32,
    tick_upper: i32,
    delta: int,
    r: Result<(), AMMError>,
)
    requires
        position::position_outcome(before, after, tick_lower, tick_upper, delta, r),
    ensures
        r is Ok <==> before.takes_position(tick_lower, tick_upper, delta),
        r is Ok ==> position::position_changed(before, after, tick_lower, tick_upper, delta),
        r is Err ==> after == before && r == Err::<(), AMMError>(
            AMMError::UniswapV3Error(UniswapV3Error::LiquidityOutOfRange),
        ),
{
}

/// A change of a position inverts a mark exactly where it is taken over and the gross liquidity of
/// one of its ends becomes or ceases to be zero.
pub proof fn law_inverted_marks(
    before: UniswapV3Pool,
    tick_lower: i32,
    tick_upper: i32,
    delta: int,
)
    requires
        tick_lower != tick_upper,
        before.takes_position(tick_lower, tick_upper, delta),
    ensures
        ({
            let ticks = before.ticks@;
            let gross_lower = if ticks.contains_key(tick_lower) {
                ticks[tick_lower].liquidity_gross as int
            } else {
                0
            };
            let gross_upper = if ticks.contains_key(tick_upper) {
                ticks[tick_upper].liquidity_gross as int
            } else {
                0
            };
            before.flips_marks(tick_lower, tick_upper, delta) <==> (gross_lower == 0) != (
            gross_lower + delta == 0) || (gross_upper == 0) != (gross_upper + delta == 0)
        }),
{
}

} // verus!
