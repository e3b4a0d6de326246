//! How what was read from the pool manager's storage is taken over into pools.
use vstd::prelude::*;

use crate::events::{read_int24, read_uint160, read_uint24};
use crate::factory::UniswapV4Factory;
use crate::lense::{self, get_pool_state_slot};
use crate::pool::UniswapV4Pool;
use crate::uniswap_v3::{Token, UniswapV3Pool};
use crate::word::{self, Address, B256, U256};

verus! {

/// The index of the first failure among the first `n` results, or `n`.
pub open spec fn first_error<T, E>(results: Seq<Result<T, E>>, n: int) -> int
    decreases n,
{
    if n <= 0 {
        0
    } else {
        let k = first_error(results, n - 1);
        if k < n - 1 || results[n - 1] is Err {
            k
        } else {
            n
        }
    }
}

/// The smaller of two numbers.
pub open spec fn smaller(a: int, b: int) -> int {
    if a <= b {
        a
    } else {
        b
    }
}

/// The number of results that are taken over: those before the first failure, and no more than
/// there are pools to take them.
pub open spec fn taken<T, E>(results: Seq<Result<T, E>>, pools: int) -> int {
    first_error(results, smaller(pools, results.len() as int))
}

/// What taking over results returns: the first failure, if there is one.
pub open spec fn outcome<T, E>(results: Seq<Result<T, E>>, pools: int, r: Result<(), E>) -> bool {
    let n = smaller(pools, results.len() as int);
    let k = taken(results, pools);
    if k < n {
        r == Err::<(), E>(results[k]->Err_0)
    } else {
        r is Ok
    }
}

/// The results before the first failure are none.
pub(crate) proof fn lemma_first_error<T, E>(results: Seq<Result<T, E>>, n: int, m: int)
    requires
        0 <= m <= n <= results.len(),
        forall|i: int| 0 <= i < m ==> results[i] is Ok,
    ensures
        m <= first_error(results, n) <= n,
        m < n && results[m] is Err ==> first_error(results, n) == m,
    decreases n,
{
    if n > 0 {
        if m < n {
            lemma_first_error(results, n - 1, m);
        } else {
            lemma_first_error(results, n - 1, m - 1);
        }
    }
}

// ----- slot 0 -----

/// Whether `after` is `before` with the price, tick and fees of a pool's first state word taken
/// over. The word packs, from its last byte on, 20 bytes of price and 3 bytes each of tick,
/// protocol fee and fee.
pub open spec fn slot_0_applied(before: UniswapV4Pool, after: UniswapV4Pool, w: Seq<u8>) -> bool {
    &&& after.pool_data.sqrt_price@ == word::be_value(w.skip(12))
    &&& after.pool_data.tick == word::twos_complement(word::be_value(w.subrange(9, 12)), 24)
    &&& after.protocol_fee == word::be_value(w.subrange(6, 9))
    &&& after.pool_data.fee == word::be_value(w.subrange(3, 6))
    &&& after == (UniswapV4Pool {
        protocol_fee: after.protocol_fee,
        pool_data: UniswapV3Pool {
            sqrt_price: after.pool_data.sqrt_price,
            tick: after.pool_data.tick,
            fee: after.pool_data.fee,
            ..before.pool_data
        },
        ..before
    })
}

/// Whether `after` is `before` with the state words up to the first failure taken over.
pub open spec fn slot_0_synced<E>(
    before: Seq<UniswapV4Pool>,
    after: Seq<UniswapV4Pool>,
    results: Seq<Result<B256, E>>,
) -> bool {
    let k = taken(results, before.len() as int);
    &&& after.len() == before.len()
    &&& forall|i: int|
        0 <= i < k ==> slot_0_applied(before[i], #[trigger] after[i], results[i]->Ok_0@)
    &&& forall|i: int| k <= i < before.len() ==> #[trigger] after[i] == before[i]
}

/// Whether `queries` name, for each pool, the pool manager and the slot of the pool's state.
pub open spec fn queries_slot_0(
    pools: Seq<UniswapV4Pool>,
    queries: Seq<(Address, U256)>,
) -> bool {
    &&& queries.len() == pools.len()
    &&& forall|i: int|
        0 <= i < queries.len() ==> (#[trigger] queries[i]).0 == pools[i].pool_data.address
            && queries[i].1.be@ == lense::pool_state_slot(pools[i].pool_id@)
}

// ----- token decimals -----

/// Whether `a` is the address of a token of one of the pools.
pub open spec fn is_token_of(pools: Seq<UniswapV4Pool>, a: Address) -> bool {
    exists|i: int|
        0 <= i < pools.len() && ((#[trigger] pools[i]).pool_data.token_a.address == a
            || pools[i].pool_data.token_b.address == a)
}

/// Whether `tokens` lists the pools' tokens, each once.
pub open spec fn lists_tokens(pools: Seq<UniswapV4Pool>, tokens: Seq<Address>) -> bool {
    &&& tokens.no_duplicates()
    &&& forall|a: Address| tokens.contains(a) <==> is_token_of(pools, a)
}

/// The decimals that a list gives for a token, where it gives any.
pub open spec fn decimals_of(token_decimals: Seq<(Address, u8)>, a: Address) -> Option<u8>
    decreases token_decimals.len(),
{
    if token_decimals.len() == 0 {
        None
    } else {
        match decimals_of(token_decimals.drop_last(), a) {
            Some(d) => Some(d),
            None => if token_decimals.last().0 == a {
                Some(token_decimals.last().1)
            } else {
                None
            },
        }
    }
}

/// A token with the decimals that a list gives for it, or else its own.
pub open spec fn token_with_decimals(token: Token, token_decimals: Seq<(Address, u8)>) -> Token {
    match decimals_of(token_decimals, token.address) {
        Some(decimals) => Token { decimals, ..token },
        None => token,
    }
}

/// A pool with the decimals that a list gives for its tokens.
pub open spec fn with_decimals(
    pool: UniswapV4Pool,
    token_decimals: Seq<(Address, u8)>,
) -> UniswapV4Pool {
    UniswapV4Pool {
        pool_data: UniswapV3Pool {
            token_a: token_with_decimals(pool.pool_data.token_a, token_decimals),
            token_b: token_with_decimals(pool.pool_data.token_b, token_decimals),
            ..pool.pool_data
        },
        ..pool
    }
}

/// Whether `after` is `before` with the decimals that a list gives for the pools' tokens.
pub open spec fn decimals_synced(
    before: Seq<UniswapV4Pool>,
    after: Seq<UniswapV4Pool>,
    token_decimals: Seq<(Address, u8)>,
) -> bool {
    after == before.map_values(|p: UniswapV4Pool| with_decimals(p, token_decimals))
}

impl UniswapV4Factory {
    /// The pool manager and the slot from which each pool's first state word is read.
    pub fn slot_0_queries(pools: &Vec<UniswapV4Pool>) -> (r: Vec<(Address, U256)>)
        ensures
            queries_slot_0(pools@, r@),
    {
        let mut r: Vec<(Address, U256)> = Vec::new();
        let mut i: usize = 0;
        while i < pools.len()
            invariant
                i <= pools@.len(),
                r@.len() == i,
                forall|k: int|
                    0 <= k < r@.len() ==> (#[trigger] r@[k]).0 == pools@[k].pool_data.address
                        && r@[k].1.be@ == lense::pool_state_slot(pools@[k].pool_id@),
            decreases pools@.len() - i,
        {
            r.push((pools[i].address(), get_pool_state_slot(pools[i].pool_id)));
            i = i + 1;
        }
        r
    }

    /// Takes the first state words over, the first result into the first pool and so on. A failed
    /// result ends it and is returned.
    pub fn sync_slot_0<E>(
        pools: &mut Vec<UniswapV4Pool>,
        results: Vec<Result<B256, E>>,
    ) -> (r: Result<(), E>)
        ensures
            slot_0_synced(old(pools)@, final(pools)@, results@),
            outcome(results@, old(pools)@.len() as int, r),
    {
        let ghost before = pools@;
        let ghost n = smaller(before.len() as int, results@.len() as int);
        let mut pending = results;
        let mut i: usize = 0;
        while i < pools.len() && i < pending.len()
            invariant
                before == old(pools)@,
                n == smaller(before.len() as int, results@.len() as int),
                pending@ == results@,
                pools@.len() == before.len(),
                i <= n,
                forall|k: int| 0 <= k < i ==> results@[k] is Ok,
                forall|k: int|
                    0 <= k < i ==> slot_0_applied(
                        before[k],
                        #[trigger] pools@[k],
                        results@[k]->Ok_0@,
                    ),
                forall|k: int| i <= k < before.len() ==> #[trigger] pools@[k] == before[k],
            decreases n - i,
        {
            proof {
                lemma_first_error(results@, n, i as int);
            }
            match &pending[i] {
                Ok(w) => {
                    apply_slot_0(&mut pools[i], w);
                },
                Err(_) => {
                    match pending.swap_remove(i) {
                        Err(e) => {
                            return Err(e);
                        },
                        Ok(_) => {},
                    }
                },
            }
            i = i + 1;
        }
        proof {
            lemma_first_error(results@, n, i as int);
        }
        Ok(())
    }

    /// The addresses of the pools' tokens, each once.
    pub fn token_addresses(pools: &Vec<UniswapV4Pool>) -> (r: Vec<Address>)
        ensures
            lists_tokens(pools@, r@),
    {
        let mut r: Vec<Address> = Vec::new();
        let mut i: usize = 0;
        while i < pools.len()
            invariant
                i <= pools@.len(),
                r@.no_duplicates(),
                forall|a: Address| r@.contains(a) <==> is_token_of(pools@.take(i as int), a),
            decreases pools@.len() - i,
        {
            let ghost before = r@;
            let a = pools[i].pool_data.token_a.address;
            let b = pools[i].pool_data.token_b.address;
            push_new(&mut r, a);
            push_new(&mut r, b);
            proof {
                let now = pools@.take(i + 1);
                let earlier = pools@.take(i as int);
                assert(now[i as int] == pools@[i as int]);
                assert forall|x: Address| r@.contains(x) <==> is_token_of(now, x) by {
                    if is_token_of(earlier, x) {
                        let k = choose|k: int|
                            0 <= k < earlier.len() && ((
                            #[trigger] earlier[k]).pool_data.token_a.address == x
                                || earlier[k].pool_data.token_b.address == x);
                        assert(now[k] == earlier[k]);
                    }
                    if is_token_of(now, x) {
                        let k = choose|k: int|
                            0 <= k < now.len() && ((#[trigger] now[k]).pool_data.token_a.address
                                == x || now[k].pool_data.token_b.address == x);
                        if k < i {
                            assert(earlier[k] == now[k]);
                        }
                    }
                }
            }
            i = i + 1;
        }
        assert(pools@.take(pools@.len() as int) =~= pools@);
        r
    }

    /// Takes over the decimals that a list gives for the pools' tokens.
    pub fn sync_token_decimals(
        pools: &mut Vec<UniswapV4Pool>,
        token_decimals: &Vec<(Address, u8)>,
    )
        ensures
            decimals_synced(old(pools)@, final(pools)@, token_decimals@),
    {
        let ghost before = pools@;
        let mut i: usize = 0;
        while i < pools.len()
            invariant
                i <= pools@.len(),
                pools@.len() == before.len(),
                forall|k: int|
                    0 <= k < i ==> #[trigger] pools@[k] == with_decimals(
                        before[k],
                        token_decimals@,
                    ),
                forall|k: int| i <= k < before.len() ==> #[trigger] pools@[k] == before[k],
            decreases pools@.len() - i,
        {
            apply_decimals(&mut pools[i], token_decimals);
            i = i + 1;
        }
        assert(pools@ =~= before.map_values(
            |p: UniswapV4Pool| with_decimals(p, token_decimals@),
        ));
    }
}

/// Takes a pool's first state word over.
fn apply_slot_0(pool: &mut UniswapV4Pool, w: &B256)
    ensures
        slot_0_applied(*old(pool), *final(pool), w@),
{
    pool.pool_data.sqrt_price = read_uint160(w);
    pool.pool_data.tick = read_int24(w, 9);
    pool.protocol_fee = read_uint24(w, 6);
    pool.pool_data.fee = read_uint24(w, 3);
}

/// Whether two addresses are equal.
fn addresses_equal(a: &Address, b: &Address) -> (r: bool)
    ensures
        r == (*a == *b),
{
    let mut i: usize = 0;
    while i < 20
        invariant
            i <= 20,
            forall|j: int| 0 <= j < i ==> a@[j] == b@[j],
        decreases 20 - i,
    {
        if a[i] != b[i] {
            return false;
        }
        i = i + 1;
    }
    assert(*a =~= *b);
    true
}

/// Appends an address unless it is there.
fn push_new(list: &mut Vec<Address>, a: Address)
    requires
        old(list)@.no_duplicates(),
    ensures
        final(list)@.no_duplicates(),
        forall|x: Address| final(list)@.contains(x) <==> old(list)@.contains(x) || x == a,
{
    let mut i: usize = 0;
    while i < list.len()
        invariant
            list@ == old(list)@,
            list@.no_duplicates(),
            i <= list@.len(),
            forall|k: int| 0 <= k < i ==> list@[k] != a,
        decreases list@.len() - i,
    {
        if addresses_equal(&list[i], &a) {
            return;
        }
        i = i + 1;
    }
    list.push(a);
    proof {
        assert forall|x: Address| list@.contains(x) <==> old(list)@.contains(x) || x == a by {
            if old(list)@.contains(x) {
                let k = choose|k: int| 0 <= k < old(list)@.len() && old(list)@[k] == x;
                assert(list@[k] == x);
            }
            assert(list@[list@.len() - 1] == a);
        }
    }
}

/// The decimals that a list gives for a token, where it gives any.
fn find_decimals(token_decimals: &Vec<(Address, u8)>, a: &Address) -> (r: Option<u8>)
    ensures
        r == decimals_of(token_decimals@, *a),
{
    let mut i: usize = 0;
    let mut found: Option<u8> = None;
    while i < token_decimals.len()
        invariant
            i <= token_decimals@.len(),
            found == decimals_of(token_decimals@.take(i as int), *a),
        decreases token_decimals@.len() - i,
    {
        proof {
            assert(token_decimals@.take(i + 1).drop_last() =~= token_decimals@.take(i as int));
        }
        if found.is_none() && addresses_equal(&token_decimals[i].0, a) {
            found = Some(token_decimals[i].1);
        }
        i = i + 1;
    }
    assert(token_decimals@.take(token_decimals@.len() as int) =~= token_decimals@);
    found
}

/// Takes over the decimals that a list gives for a pool's tokens.
fn apply_decimals(pool: &mut UniswapV4Pool, token_decimals: &Vec<(Address, u8)>)
    ensures
        *final(pool) == with_decimals(*old(pool), token_decimals@),
{
    match find_decimals(token_decimals, &pool.pool_data.token_a.address) {
        Some(decimals) => {
            pool.pool_data.token_a.decimals = decimals;
        },
        None => {},
    }
    match find_decimals(token_decimals, &pool.pool_data.token_b.address) {
        Some(decimals) => {
            pool.pool_data.token_b.decimals = decimals;
        },
        None => {},
    }
}

} // verus!
