//! How the bitmap of initialized ticks and the ticks' liquidity are read from the pool manager's
//! storage and taken over into pools.
use vstd::arithmetic::div_mod::*;
use vstd::prelude::*;

use crate::encoding;
use crate::factory::UniswapV4Factory;
use crate::lense::{
    self, decode_liquidity_gross_and_net, get_tick_bitmap_slot, get_tick_info_slot,
};
use crate::pool::UniswapV4Pool;
use crate::position;
use crate::sync;
use crate::uniswap_v3::{self, truncating_quotient, Info};
use crate::word::{self, B256, U256};

verus! {

broadcast use vstd::std_specs::hash::group_hash_axioms;

/// How many slots one storage query asks for.
pub const SLOTS_PER_QUERY: usize = 500;

/// A sequence cut into pieces of `n` elements, the last of which may be shorter.
pub open spec fn chunks<T>(s: Seq<T>, n: nat) -> Seq<Seq<T>>
    recommends
        n > 0,
    decreases s.len(),
{
    if s.len() == 0 || n == 0 {
        Seq::empty()
    } else if s.len() <= n {
        seq![s]
    } else {
        seq![s.take(n as int)] + chunks(s.skip(n as int), n)
    }
}

/// Pieces put together again.
pub open spec fn concat<T>(pieces: Seq<Seq<T>>) -> Seq<T>
    decreases pieces.len(),
{
    if pieces.len() == 0 {
        Seq::empty()
    } else {
        pieces[0] + concat(pieces.skip(1))
    }
}

/// The contents of a list of lists.
pub open spec fn contents<T>(lists: Seq<Vec<T>>) -> Seq<Seq<T>> {
    lists.map_values(|l: Vec<T>| l@)
}

/// Cutting a sequence into pieces loses nothing, keeps the order, and gives pieces that are neither
/// empty nor longer than asked for; all but the last have the full length.
pub proof fn law_chunks<T>(s: Seq<T>, n: nat)
    requires
        n > 0,
    ensures
        concat(chunks(s, n)) == s,
        forall|i: int| 0 <= i < chunks(s, n).len() ==> 0 < (#[trigger] chunks(s, n)[i]).len() <= n,
        forall|i: int|
            0 <= i < chunks(s, n).len() - 1 ==> (#[trigger] chunks(s, n)[i]).len() == n,
    decreases s.len(),
{
    if s.len() == 0 {
    } else if s.len() <= n {
        assert(chunks(s, n) == seq![s]);
        assert(chunks(s, n).skip(1) =~= Seq::<Seq<T>>::empty());
        assert(s + concat(Seq::<Seq<T>>::empty()) =~= s);
    } else {
        let head = s.take(n as int);
        let rest = chunks(s.skip(n as int), n);
        law_chunks(s.skip(n as int), n);
        let all = chunks(s, n);
        assert(all == seq![head] + rest);
        assert(all.skip(1) =~= rest);
        assert(head + s.skip(n as int) =~= s);
        assert forall|i: int| 0 < i < all.len() implies #[trigger] all[i] == rest[i - 1] by {}
        assert(all[0] == head);
    }
}

/// The slots of the bitmap words from `lo` up to but not including `hi`, each under the first
/// tick of its word; a slot that is zero is left out.
pub open spec fn bitmap_slots_between(
    pool_id: Seq<u8>,
    tick_spacing: int,
    lo: int,
    hi: int,
) -> Seq<Seq<u8>>
    decreases hi - lo,
{
    if hi <= lo {
        Seq::empty()
    } else {
        let below = bitmap_slots_between(pool_id, tick_spacing, lo, hi - 1);
        let slot = lense::tick_bitmap_slot(pool_id, (hi - 1) * tick_spacing * 256);
        if word::be_value(slot) != 0 {
            below.push(slot)
        } else {
            below
        }
    }
}

/// A bitmap in which the first `n` words from position `first` on are those given.
pub open spec fn bitmap_with_words(
    bitmap: Map<i16, nat>,
    first: int,
    words: Seq<B256>,
    n: int,
) -> Map<i16, nat>
    decreases n,
{
    if n <= 0 {
        bitmap
    } else {
        bitmap_with_words(bitmap, first, words, n - 1).insert(
            (first + n - 1) as i16,
            word::be_value(words[n - 1]@),
        )
    }
}

/// How many bitmap words a pool takes over: no more than its ticks can fall in.
pub open spec fn bitmap_words_taken(tick_spacing: int, words: int) -> int {
    let span = uniswap_v3::word_of_tick(uniswap_v3::max_tick_value(), tick_spacing)
        - uniswap_v3::word_of_tick(uniswap_v3::min_tick_value(), tick_spacing) + 1;
    sync::smaller(
        if span < 0 {
            0
        } else {
            span
        },
        words,
    )
}

/// Whether `after` is `before` with the words of a query's answers taken over into the bitmap,
/// from the first word that the pool's ticks can fall in on.
pub open spec fn bitmap_applied(
    before: UniswapV4Pool,
    after: UniswapV4Pool,
    answers: Seq<Vec<B256>>,
) -> bool {
    let words = concat(contents(answers));
    let s = before.pool_data.tick_spacing as int;
    &&& after.same_but_data(before)
    &&& after.pool_data.same_but_liquidity(before.pool_data)
    &&& after.pool_data.liquidity == before.pool_data.liquidity
    &&& after.pool_data.ticks == before.pool_data.ticks
    &&& after.pool_data.bitmap() == bitmap_with_words(
        before.pool_data.bitmap(),
        uniswap_v3::word_of_tick(uniswap_v3::min_tick_value(), s),
        words,
        bitmap_words_taken(s, words.len() as int),
    )
}

/// Whether `after` is `before` with the bitmaps up to the first failed query taken over.
pub open spec fn bitmaps_synced<E>(
    before: Seq<UniswapV4Pool>,
    after: Seq<UniswapV4Pool>,
    results: Seq<Result<Vec<Vec<B256>>, E>>,
) -> bool {
    let k = sync::taken(results, before.len() as int);
    &&& after.len() == before.len()
    &&& forall|i: int|
        0 <= i < k ==> bitmap_applied(before[i], #[trigger] after[i], results[i]->Ok_0@)
    &&& forall|i: int| k <= i < before.len() ==> #[trigger] after[i] == before[i]
}

/// A bitmap word between those of the lowest and highest tick starts at a tick of the pool.
proof fn lemma_inner_word(tick_spacing: int, w: int)
    requires
        tick_spacing != 0,
        uniswap_v3::word_of_tick(uniswap_v3::min_tick_value(), tick_spacing) < w,
        w < uniswap_v3::word_of_tick(uniswap_v3::max_tick_value(), tick_spacing),
    ensures
        tick_spacing > 0,
        -887272 <= w * tick_spacing * 256 <= 887272,
        -3466 <= w * tick_spacing <= 3466,
{
    let m: int = 887272;
    let s = tick_spacing;
    if s < 0 {
        let d = -s;
        lemma_div_pos_is_pos(m, d);
        assert(false);
    } else {
        uniswap_v3::lemma_compressed_tick_floor(m, s);
        uniswap_v3::lemma_compressed_tick_floor(-m, s);
        lemma_fundamental_div_mod(m, s);
        lemma_mod_bound(m, s);
        lemma_fundamental_div_mod(-m, s);
        lemma_mod_bound(-m, s);
        let top = m / s;
        let bottom = (-m) / s;
        assert(w * 256 <= top);
        assert(w * 256 >= bottom + 1);
        assert((w * 256) * s <= m) by (nonlinear_arith)
            requires
                w * 256 <= top,
                m == s * top + m % s,
                0 <= m % s,
                s > 0,
        ;
        assert((w * 256) * s >= -m) by (nonlinear_arith)
            requires
                w * 256 >= bottom + 1,
                -m == s * bottom + (-m) % s,
                (-m) % s < s,
                s > 0,
        ;
        assert((w * 256) * s == w * s * 256) by (nonlinear_arith);
    }
}

/// The slots that a storage query asks for, in queries of at most the allowed size.
pub fn slot_queries(slots: &Vec<U256>) -> (r: Vec<Vec<U256>>)
    ensures
        contents(r@) == chunks(slots@, SLOTS_PER_QUERY as nat),
{
    let mut r: Vec<Vec<U256>> = Vec::new();
    let mut i: usize = 0;
    assert(slots@.skip(0) =~= slots@);
    assert(contents(r@) + chunks(slots@, SLOTS_PER_QUERY as nat) =~= chunks(
        slots@,
        SLOTS_PER_QUERY as nat,
    ));
    while i < slots.len()
        invariant
            i <= slots@.len(),
            contents(r@) + chunks(slots@.skip(i as int), SLOTS_PER_QUERY as nat) == chunks(
                slots@,
                SLOTS_PER_QUERY as nat,
            ),
        decreases slots@.len() - i,
    {
        let end: usize = if slots.len() - i > SLOTS_PER_QUERY {
            i + SLOTS_PER_QUERY
        } else {
            slots.len()
        };
        let piece = copy_range(slots, i, end);
        let ghost before = r@;
        let ghost rest = slots@.skip(i as int);
        r.push(piece);
        proof {
            assert(contents(r@) =~= contents(before).push(piece@));
            assert(slots@.skip(end as int) =~= rest.skip(end - i));
            assert(piece@ =~= rest.take(end - i));
            if end == slots@.len() {
                assert(rest.take(end - i) =~= rest);
                assert(chunks(slots@.skip(end as int), SLOTS_PER_QUERY as nat) =~= Seq::empty());
            }
            assert(contents(before) + (seq![piece@] + chunks(
                slots@.skip(end as int),
                SLOTS_PER_QUERY as nat,
            )) =~= contents(before).push(piece@) + chunks(
                slots@.skip(end as int),
                SLOTS_PER_QUERY as nat,
            ));
            assert(seq![piece@] + chunks(slots@.skip(end as int), SLOTS_PER_QUERY as nat)
                =~= chunks(rest, SLOTS_PER_QUERY as nat));
        }
        i = end;
    }
    assert(chunks(slots@.skip(i as int), SLOTS_PER_QUERY as nat) =~= Seq::empty());
    assert(contents(r@) + Seq::<Seq<U256>>::empty() =~= contents(r@));
    r
}

/// The elements from `from` up to but not including `to`.
fn copy_range(slots: &Vec<U256>, from: usize, to: usize) -> (r: Vec<U256>)
    requires
        from <= to <= slots@.len(),
    ensures
        r@ == slots@.subrange(from as int, to as int),
{
    let mut r: Vec<U256> = Vec::new();
    let mut k: usize = from;
    while k < to
        invariant
            from <= k <= to <= slots@.len(),
            r@ == slots@.subrange(from as int, k as int),
        decreases to - k,
    {
        r.push(slots[k]);
        k = k + 1;
        assert(r@ =~= slots@.subrange(from as int, k as int));
    }
    r
}

impl UniswapV4Pool {
    /// The slots of the bitmap words strictly between those of the lowest and highest tick.
    pub fn tick_bitmap_slots(&self) -> (r: Vec<U256>)
        requires
            self.pool_data.tick_spacing != 0,
        ensures
            r@.map_values(|u: U256| u.be@) == bitmap_slots_between(
                self.pool_id@,
                self.pool_data.tick_spacing as int,
                uniswap_v3::word_of_tick(
                    uniswap_v3::min_tick_value(),
                    self.pool_data.tick_spacing as int,
                ) + 1,
                uniswap_v3::word_of_tick(
                    uniswap_v3::max_tick_value(),
                    self.pool_data.tick_spacing as int,
                ),
            ),
    {
        let (min_word, max_word) = self.pool_data.word_range();
        let spacing: i32 = self.pool_data.tick_spacing;
        let ghost s = spacing as int;
        let ghost id = self.pool_id@;
        let ghost lo = min_word + 1;
        let ghost bytes = |u: U256| u.be@;
        let mut r: Vec<U256> = Vec::new();
        let mut w: i32 = min_word + 1;
        assert(r@.map_values(bytes) =~= Seq::<Seq<u8>>::empty());
        while w < max_word
            invariant
                s == spacing,
                spacing != 0,
                id == self.pool_id@,
                bytes == (|u: U256| u.be@),
                lo == min_word + 1,
                lo <= w,
                w <= max_word || w == lo,
                min_word == uniswap_v3::word_of_tick(uniswap_v3::min_tick_value(), s),
                max_word == uniswap_v3::word_of_tick(uniswap_v3::max_tick_value(), s),
                -3466 <= min_word <= 3465,
                -3466 <= max_word <= 3465,
                r@.map_values(bytes) == bitmap_slots_between(id, s, lo, w as int),
            decreases max_word - w,
        {
            proof {
                lemma_inner_word(s, w as int);
            }
            let tick: i32 = w * spacing * 256;
            let slot = get_tick_bitmap_slot(self.pool_id, tick);
            let ghost before = r@;
            if !slot.is_zero() {
                r.push(slot);
                assert(r@.map_values(bytes) =~= before.map_values(bytes).push(slot.be@));
            }
            w = w + 1;
        }
        proof {
            if max_word < lo {
                assert(r@.map_values(bytes) =~= Seq::<Seq<u8>>::empty());
            }
        }
        r
    }

    /// Takes over the bitmap words that a query answered.
    fn apply_tick_bitmap(&mut self, answers: &Vec<Vec<B256>>)
        requires
            old(self).pool_data.tick_spacing != 0,
        ensures
            bitmap_applied(*old(self), *final(self), answers@),
    {
        let (min_word, max_word) = self.pool_data.word_range();
        let words = join(answers);
        let ghost before = self.pool_data.bitmap();
        let ghost s = self.pool_data.tick_spacing as int;
        let ghost n = bitmap_words_taken(s, words@.len() as int);
        let mut w: i32 = min_word;
        let mut k: usize = 0;
        while w <= max_word && k < words.len()
            invariant
                self.same_but_data(*old(self)),
                self.pool_data.same_but_liquidity(old(self).pool_data),
                self.pool_data.liquidity == old(self).pool_data.liquidity,
                self.pool_data.ticks == old(self).pool_data.ticks,
                s == self.pool_data.tick_spacing,
                n == bitmap_words_taken(s, words@.len() as int),
                min_word == uniswap_v3::word_of_tick(uniswap_v3::min_tick_value(), s),
                max_word == uniswap_v3::word_of_tick(uniswap_v3::max_tick_value(), s),
                -3466 <= min_word <= 3465,
                -3466 <= max_word <= 3465,
                w == min_word + k,
                k <= n,
                self.pool_data.bitmap() == bitmap_with_words(
                    before,
                    min_word as int,
                    words@,
                    k as int,
                ),
            decreases n - k,
        {
            let ghost so_far = self.pool_data.bitmap();
            self.pool_data.tick_bitmap.insert(w as i16, U256::from_be_bytes(words[k]));
            assert(self.pool_data.bitmap() =~= so_far.insert(
                w as i16,
                word::be_value(words@[k as int]@),
            ));
            w = w + 1;
            k = k + 1;
        }
    }
}

/// The words of several answers, one after the other.
fn join(answers: &Vec<Vec<B256>>) -> (r: Vec<B256>)
    ensures
        r@ == concat(contents(answers@)),
{
    let mut r: Vec<B256> = Vec::new();
    let mut i: usize = 0;
    let ghost all = contents(answers@);
    assert(all.skip(0) =~= all);
    assert(r@ + concat(all) =~= concat(all));
    while i < answers.len()
        invariant
            all == contents(answers@),
            i <= answers@.len(),
            r@ + concat(all.skip(i as int)) == concat(all),
        decreases answers@.len() - i,
    {
        let ghost before = r@;
        let piece = &answers[i];
        let mut k: usize = 0;
        while k < piece.len()
            invariant
                k <= piece@.len(),
                r@ == before + piece@.take(k as int),
            decreases piece@.len() - k,
        {
            r.push(piece[k]);
            k = k + 1;
            assert(r@ =~= before + piece@.take(k as int));
        }
        proof {
            assert(piece@.take(piece@.len() as int) =~= piece@);
            assert(all.skip(i as int).skip(1) =~= all.skip(i + 1));
            assert(all.skip(i as int)[0] == piece@);
            assert(before + (piece@ + concat(all.skip(i + 1))) =~= r@ + concat(all.skip(i + 1)));
        }
        i = i + 1;
    }
    assert(concat(all.skip(i as int)) =~= Seq::empty());
    assert(r@ + Seq::<B256>::empty() =~= r@);
    r
}

impl UniswapV4Factory {
    /// Takes bitmaps over, the first result into the first pool and so on. A failed result ends
    /// it and is returned.
    pub fn sync_tick_bitmap<E>(
        pools: &mut Vec<UniswapV4Pool>,
        results: Vec<Result<Vec<Vec<B256>>, E>>,
    ) -> (r: Result<(), E>)
        requires
            forall|i: int|
                0 <= i < sync::taken(results@, old(pools)@.len() as int) ==> (
                #[trigger] old(pools)@[i]).pool_data.tick_spacing != 0,
        ensures
            bitmaps_synced(old(pools)@, final(pools)@, results@),
            sync::outcome(results@, old(pools)@.len() as int, r),
    {
        let ghost before = pools@;
        let ghost n = sync::smaller(before.len() as int, results@.len() as int);
        let mut pending = results;
        let mut i: usize = 0;
        while i < pools.len() && i < pending.len()
            invariant
                before == old(pools)@,
                forall|k: int|
                    0 <= k < sync::taken(results@, before.len() as int) ==> (
                    #[trigger] before[k]).pool_data.tick_spacing != 0,
                n == sync::smaller(before.len() as int, results@.len() as int),
                pending@ == results@,
                pools@.len() == before.len(),
                i <= n,
                forall|k: int| 0 <= k < i ==> results@[k] is Ok,
                forall|k: int|
                    0 <= k < i ==> bitmap_applied(
                        before[k],
                        #[trigger] pools@[k],
                        results@[k]->Ok_0@,
                    ),
                forall|k: int| i <= k < before.len() ==> #[trigger] pools@[k] == before[k],
            decreases n - i,
        {
            proof {
                sync::lemma_first_error(results@, n, i as int);
                assert(pools@[i as int] == before[i as int]);
            }
            match &pending[i] {
                Ok(answers) => {
                    proof {
                        sync::lemma_first_error(results@, n, i + 1);
                        assert(before[i as int].pool_data.tick_spacing != 0);
                    }
                    pools[i].apply_tick_bitmap(answers);
                },
                Err(_) => {
                    match pending.swap_remove(i) {
                        Err(e) => {
                            return Err(e);
                        },
                        Ok(_) => {},
                    }
                },
            }
            i = i + 1;
        }
        proof {
            sync::lemma_first_error(results@, n, i as int);
        }
        Ok(())
    }
}

/// A query for the liquidity at a pool's initialized ticks.
#[derive(Debug, Clone)]
pub struct TickDataQuery {
    /// The pool's index among the pools.
    pub pool: usize,
    /// The pool's initialized ticks.
    pub ticks: Vec<i32>,
    /// The slots of the ticks' liquidity, in the order of the ticks.
    pub slots: Vec<U256>,
}

/// The indices of the pools that have initialized ticks, in order.
pub open spec fn pools_with_ticks(pools: Seq<UniswapV4Pool>) -> Seq<int>
    decreases pools.len(),
{
    if pools.len() == 0 {
        Seq::empty()
    } else {
        let before = pools_with_ticks(pools.drop_last());
        if pools.last().pool_data.initialized_ticks_spec().len() > 0 {
            before.push(pools.len() - 1)
        } else {
            before
        }
    }
}

/// Whether a query asks for a pool's initialized ticks.
pub open spec fn queries_pool(query: TickDataQuery, pools: Seq<UniswapV4Pool>) -> bool {
    let pool = pools[query.pool as int];
    &&& query.pool < pools.len()
    &&& query.ticks@.map_values(|t: i32| t as int) == pool.pool_data.initialized_ticks_spec()
    &&& query.slots@.len() == query.ticks@.len()
    &&& forall|i: int|
        0 <= i < query.ticks@.len() ==> (#[trigger] query.slots@[i]).be@ == lense::tick_info_slot(
            pool.pool_id@,
            query.ticks@[i] as int,
        )
}

/// Whether `queries` ask for the initialized ticks of the pools that have any.
pub open spec fn queries_tick_data(
    pools: Seq<UniswapV4Pool>,
    queries: Seq<TickDataQuery>,
) -> bool {
    &&& queries.map_values(|q: TickDataQuery| q.pool as int) == pools_with_ticks(pools)
    &&& forall|i: int| 0 <= i < queries.len() ==> queries_pool(#[trigger] queries[i], pools)
}

/// Whether the bitmap holds a one at the place that is looked up for `tick`: the digit that the
/// tick has modulo 256, in the word of the tick's quotient by 256 rounded toward zero.
pub open spec fn tick_mark(bitmap: Map<i16, nat>, tick: int) -> bool {
    word::bit_of(
        position::word_value(bitmap, uniswap_v3::trunc_div(tick, 256) as i16),
        (tick % 256) as nat,
    )
}

/// What a pool records of a tick from its liquidity word.
pub open spec fn info_from_word(bitmap: Map<i16, nat>, tick: int, w: Seq<u8>) -> Info {
    Info {
        liquidity_gross: lense::liquidity_gross(w) as u128,
        liquidity_net: lense::liquidity_net(w) as i128,
        initialized: tick_mark(bitmap, tick),
    }
}

/// Tick records in which the first `n` ticks have been set, each from the first word of the answer
/// of the same number.
pub open spec fn ticks_with_data(
    records: Map<i32, Info>,
    bitmap: Map<i16, nat>,
    ticks: Seq<i32>,
    answers: Seq<Vec<B256>>,
    n: int,
) -> Map<i32, Info>
    decreases n,
{
    if n <= 0 {
        records
    } else {
        ticks_with_data(records, bitmap, ticks, answers, n - 1).insert(
            ticks[n - 1],
            info_from_word(bitmap, ticks[n - 1] as int, answers[n - 1]@[0]@),
        )
    }
}

/// Whether `after` is `before` with the answers to a query for tick data taken over.
pub open spec fn tick_data_applied(
    before: UniswapV4Pool,
    after: UniswapV4Pool,
    ticks: Seq<i32>,
    answers: Seq<Vec<B256>>,
) -> bool {
    &&& after.same_but_data(before)
    &&& after.pool_data.same_but_liquidity(before.pool_data)
    &&& after.pool_data.liquidity == before.pool_data.liquidity
    &&& after.pool_data.tick_bitmap == before.pool_data.tick_bitmap
    &&& after.pool_data.ticks@ == ticks_with_data(
        before.pool_data.ticks@,
        before.pool_data.bitmap(),
        ticks,
        answers,
        sync::smaller(ticks.len() as int, answers.len() as int),
    )
}

/// Whether each answer that stands for a tick holds a word.
pub open spec fn answers_filled(ticks: Seq<i32>, answers: Seq<Vec<B256>>) -> bool {
    forall|i: int|
        0 <= i < answers.len() && i < ticks.len() ==> (#[trigger] answers[i])@.len() > 0
}

/// Whether queries name pools, in ascending order.
pub open spec fn queries_ordered(queries: Seq<TickDataQuery>, pools: int) -> bool {
    &&& forall|i: int| 0 <= i < queries.len() ==> (#[trigger] queries[i]).pool < pools
    &&& forall|i: int, j: int|
        0 <= i < j < queries.len() ==> (#[trigger] queries[i]).pool < (#[trigger] queries[j]).pool
}

/// Whether `after` is `before` with the tick data up to the first failed query taken over.
pub open spec fn tick_data_synced<E>(
    before: Seq<UniswapV4Pool>,
    after: Seq<UniswapV4Pool>,
    queries: Seq<TickDataQuery>,
    results: Seq<Result<Vec<Vec<B256>>, E>>,
) -> bool {
    let k = sync::taken(results, queries.len() as int);
    &&& after.len() == before.len()
    &&& forall|i: int|
        0 <= i < k ==> tick_data_applied(
            before[queries[i].pool as int],
            after[(#[trigger] queries[i]).pool as int],
            queries[i].ticks@,
            results[i]->Ok_0@,
        )
    &&& forall|p: int|
        0 <= p < before.len() && (forall|i: int|
            0 <= i < k ==> (#[trigger] queries[i]).pool != p) ==> #[trigger] after[p] == before[p]
}

impl UniswapV4Pool {
    /// Whether the pool's initialized ticks can be told from its bitmap.
    pub open spec fn ticks_known(&self) -> bool {
        self.pool_data.tick_spacing != 0 && self.pool_data.set_ticks_fit()
    }

    /// The slots of the liquidity recorded at ticks.
    pub fn tick_info_slots(&self, ticks: &Vec<i32>) -> (r: Vec<U256>)
        requires
            forall|i: int|
                0 <= i < ticks@.len() ==> encoding::fits_int24(#[trigger] ticks@[i] as int),
        ensures
            r@.len() == ticks@.len(),
            forall|i: int|
                0 <= i < ticks@.len() ==> (#[trigger] r@[i]).be@ == lense::tick_info_slot(
                    self.pool_id@,
                    ticks@[i] as int,
                ),
    {
        let mut r: Vec<U256> = Vec::new();
        let mut i: usize = 0;
        while i < ticks.len()
            invariant
                forall|k: int|
                    0 <= k < ticks@.len() ==> encoding::fits_int24(#[trigger] ticks@[k] as int),
                i <= ticks@.len(),
                r@.len() == i,
                forall|k: int|
                    0 <= k < i ==> (#[trigger] r@[k]).be@ == lense::tick_info_slot(
                        self.pool_id@,
                        ticks@[k] as int,
                    ),
            decreases ticks@.len() - i,
        {
            assert(encoding::fits_int24(ticks@[i as int] as int));
            r.push(get_tick_info_slot(self.pool_id, ticks[i]));
            i = i + 1;
        }
        r
    }

    /// Whether the bitmap holds a one at the place that is looked up for `tick`.
    fn tick_is_marked(&self, tick: i32) -> (r: bool)
        ensures
            r == tick_mark(self.pool_data.bitmap(), tick as int),
    {
        let word_pos: i64 = truncating_quotient(tick, 256);
        let bit_pos: usize = if tick >= 0 {
            (tick % 256) as usize
        } else {
            (255 - (-(tick + 1)) % 256) as usize
        };
        let w = match self.pool_data.tick_bitmap.get(&(word_pos as i16)) {
            Some(w) => *w,
            None => U256::zero(),
        };
        w.bit(bit_pos)
    }

    /// Takes over the answers to the query for the pool's ticks.
    fn apply_tick_data(&mut self, ticks: &Vec<i32>, answers: &Vec<Vec<B256>>)
        requires
            answers_filled(ticks@, answers@),
        ensures
            tick_data_applied(*old(self), *final(self), ticks@, answers@),
    {
        let ghost records = self.pool_data.ticks@;
        let ghost bitmap = self.pool_data.bitmap();
        let mut i: usize = 0;
        while i < answers.len() && i < ticks.len()
            invariant
                answers_filled(ticks@, answers@),
                i <= answers@.len(),
                i <= ticks@.len(),
                self.same_but_data(*old(self)),
                self.pool_data.same_but_liquidity(old(self).pool_data),
                self.pool_data.liquidity == old(self).pool_data.liquidity,
                self.pool_data.tick_bitmap == old(self).pool_data.tick_bitmap,
                bitmap == self.pool_data.bitmap(),
                self.pool_data.ticks@ == ticks_with_data(
                    records,
                    bitmap,
                    ticks@,
                    answers@,
                    i as int,
                ),
            decreases ticks@.len() - i,
        {
            let answer = &answers[i];
            assert(answers@[i as int]@.len() > 0);
            let (liquidity_gross, liquidity_net) = decode_liquidity_gross_and_net(answer[0]);
            let initialized = self.tick_is_marked(ticks[i]);
            self.pool_data.ticks.insert(
                ticks[i],
                Info { liquidity_gross, liquidity_net, initialized },
            );
            i = i + 1;
        }
    }
}

/// What is known of a pool's initialized ticks.
proof fn lemma_initialized_ticks_fit(pool: UniswapV4Pool, ticks: Seq<i32>)
    requires
        pool.ticks_known(),
        ticks.map_values(|t: i32| t as int) == pool.pool_data.initialized_ticks_spec(),
    ensures
        forall|i: int| 0 <= i < ticks.len() ==> encoding::fits_int24(#[trigger] ticks[i] as int),
{
    let s = pool.pool_data.tick_spacing as int;
    let all = pool.pool_data.initialized_ticks_spec();
    let lo = uniswap_v3::first_index(s);
    let hi = uniswap_v3::end_index(s);
    uniswap_v3::law_set_ticks_exact(pool.pool_data.bitmap(), s, lo, hi);
    assert forall|i: int| 0 <= i < ticks.len() implies encoding::fits_int24(
        #[trigger] ticks[i] as int,
    ) by {
        assert(ticks.map_values(|t: i32| t as int)[i] == ticks[i] as int);
        assert(all[i] == ticks[i] as int);
        assert(all.contains(ticks[i] as int));
        let c = choose|c: int|
            lo <= c < hi && #[trigger] uniswap_v3::index_is_set(pool.pool_data.bitmap(), c)
                && ticks[i] as int == c * s;
        assert(uniswap_v3::index_is_set(pool.pool_data.bitmap(), c));
    }
}

impl UniswapV4Factory {
    /// The queries for the liquidity at the pools' initialized ticks. A pool without initialized
    /// ticks is not queried.
    pub fn tick_data_queries(pools: &Vec<UniswapV4Pool>) -> (r: Vec<TickDataQuery>)
        requires
            forall|i: int| 0 <= i < pools@.len() ==> (#[trigger] pools@[i]).ticks_known(),
        ensures
            queries_tick_data(pools@, r@),
            queries_ordered(r@, pools@.len() as int),
    {
        let ghost index = |q: TickDataQuery| q.pool as int;
        let mut r: Vec<TickDataQuery> = Vec::new();
        let mut i: usize = 0;
        assert(pools@.take(0) =~= Seq::empty());
        assert(r@.map_values(index) =~= Seq::<int>::empty());
        while i < pools.len()
            invariant
                forall|k: int| 0 <= k < pools@.len() ==> (#[trigger] pools@[k]).ticks_known(),
                index == (|q: TickDataQuery| q.pool as int),
                i <= pools@.len(),
                r@.map_values(index) == pools_with_ticks(pools@.take(i as int)),
                forall|k: int| 0 <= k < r@.len() ==> queries_pool(#[trigger] r@[k], pools@),
                queries_ordered(r@, i as int),
            decreases pools@.len() - i,
        {
            proof {
                assert(pools@.take(i + 1).drop_last() =~= pools@.take(i as int));
                assert(pools@[i as int].ticks_known());
            }
            let ticks = pools[i].pool_data.initialized_ticks();
            let ghost before = r@;
            assert(ticks@.map_values(|t: i32| t as int).len() == ticks@.len());
            if ticks.len() > 0 {
                proof {
                    lemma_initialized_ticks_fit(pools@[i as int], ticks@);
                }
                let slots = pools[i].tick_info_slots(&ticks);
                r.push(TickDataQuery { pool: i, ticks, slots });
                assert(r@.map_values(index) =~= before.map_values(index).push(i as int));
            }
            i = i + 1;
        }
        assert(pools@.take(pools@.len() as int) =~= pools@);
        r
    }

    /// Takes tick data over, the first result for the first query and so on. A failed result ends
    /// it and is returned.
    pub fn sync_tick_data<E>(
        pools: &mut Vec<UniswapV4Pool>,
        queries: &Vec<TickDataQuery>,
        results: Vec<Result<Vec<Vec<B256>>, E>>,
    ) -> (r: Result<(), E>)
        requires
            queries_ordered(queries@, old(pools)@.len() as int),
            forall|i: int|
                0 <= i < queries@.len() && i < results@.len() && results@[i] is Ok
                    ==> answers_filled((#[trigger] queries@[i]).ticks@, results@[i]->Ok_0@),
        ensures
            tick_data_synced(old(pools)@, final(pools)@, queries@, results@),
            sync::outcome(results@, queries@.len() as int, r),
    {
        let ghost before = pools@;
        let ghost n = sync::smaller(queries@.len() as int, results@.len() as int);
        let mut pending = results;
        let mut i: usize = 0;
        while i < queries.len() && i < pending.len()
            invariant
                before == old(pools)@,
                queries_ordered(queries@, before.len() as int),
                forall|k: int|
                    0 <= k < queries@.len() && k < results@.len() && results@[k] is Ok
                        ==> answers_filled((#[trigger] queries@[k]).ticks@, results@[k]->Ok_0@),
                n == sync::smaller(queries@.len() as int, results@.len() as int),
                pending@ == results@,
                pools@.len() == before.len(),
                i <= n,
                forall|k: int| 0 <= k < i ==> results@[k] is Ok,
                forall|k: int|
                    0 <= k < i ==> tick_data_applied(
                        before[queries@[k].pool as int],
                        pools@[(#[trigger] queries@[k]).pool as int],
                        queries@[k].ticks@,
                        results@[k]->Ok_0@,
                    ),
                forall|p: int|
                    0 <= p < before.len() && (forall|k: int|
                        0 <= k < i ==> (#[trigger] queries@[k]).pool != p) ==> #[trigger] pools@[p]
                        == before[p],
            decreases n - i,
        {
            proof {
                sync::lemma_first_error(results@, n, i as int);
            }
            let query = &queries[i];
            match &pending[i] {
                Ok(answers) => {
                    assert(pools@[query.pool as int] == before[query.pool as int]);
                    assert(answers_filled(queries@[i as int].ticks@, answers@));
                    let ghost so_far = pools@;
                    pools[query.pool].apply_tick_data(&query.ticks, answers);
                    proof {
                        assert forall|p: int|
                            0 <= p < before.len() && (forall|k: int|
                                0 <= k < i + 1 ==> (#[trigger] queries@[k]).pool
                                    != p) implies #[trigger] pools@[p] == before[p] by {
                            assert(queries@[i as int].pool != p);
                            assert(so_far[p] == before[p]);
                        }
                    }
                },
                Err(_) => {
                    match pending.swap_remove(i) {
                        Err(e) => {
                            return Err(e);
                        },
                        Ok(_) => {},
                    }
                },
            }
            i = i + 1;
        }
        proof {
            sync::lemma_first_error(results@, n, i as int);
        }
        Ok(())
    }
}

} // verus!
