//! A pool of the singleton pool manager.
use vstd::arithmetic::power2::*;
use vstd::prelude::*;

use crate::encoding::{self, abi_encode_key, abi_encode_swap_arguments, keccak256};
use crate::error::{AMMError, UniswapV4Error};
use crate::events::{
    self, decode_modify_liquidity, decode_swap, words_equal, Log, INITIALIZE_SIGNATURE_HASH,
    MODIFY_LIQUIDITY_SIGNATURE_HASH, SWAP_SIGNATURE_HASH,
};
use crate::position;
use crate::uniswap_v3::UniswapV3Pool;
use crate::word::{self, Address, B256, I256, U256};

verus! {

/// Selector of the pool manager's
/// `swap((address,address,uint24,int24,address),(bool,int256,uint160),bytes)`.
pub const SWAP_SELECTOR: [u8; 4] = [0xf3, 0xcd, 0x91, 0x4c];

/// What identifies a pool to the pool manager.
#[derive(Debug, Clone, Copy, PartialEq, Eq)]
pub struct PoolKey {
    pub currency0: Address,
    pub currency1: Address,
    /// A 24-bit unsigned integer.
    pub fee: u32,
    /// A 24-bit signed integer.
    pub tick_spacing: i32,
    pub hooks: Address,
}

/// A pool of the singleton pool manager.
#[derive(Debug, Clone)]
pub struct UniswapV4Pool {
    pub pool_key: PoolKey,
    pub pool_id: B256,
    pub pool_data: UniswapV3Pool,
    pub hooks: Address,
    pub protocol_fee: u32,
    pub initialized: bool,
}

impl PoolKey {
    /// The ABI encoding of the key: one word for each component.
    pub open spec fn words(&self) -> Seq<u8> {
        word::address_word(self.currency0@) + word::address_word(self.currency1@)
            + word::uint_word(self.fee as nat) + word::int_word(self.tick_spacing as int)
            + word::address_word(self.hooks@)
    }
}

/// The zero bytes that fill a byte string of length `n` up to a whole number of words.
pub open spec fn padding(n: nat) -> Seq<u8> {
    Seq::new(((32 - n % 32) % 32) as nat, |i: int| 0u8)
}

/// The encoded arguments of a swap: the key, the parameters, the offset of the hook data, its
/// length, and the hook data padded to whole words.
pub open spec fn swap_arguments(
    key: PoolKey,
    zero_for_one: bool,
    amount_specified: Seq<u8>,
    sqrt_price_limit: Seq<u8>,
    hook_data: Seq<u8>,
) -> Seq<u8> {
    let direction: nat = if zero_for_one {
        1
    } else {
        0
    };
    key.words() + word::uint_word(direction) + amount_specified + sqrt_price_limit
        + word::uint_word(9 * 32) + word::uint_word(hook_data.len()) + hook_data + padding(
        hook_data.len(),
    )
}

/// The call data of a swap in a pool.
pub open spec fn swap_call(
    pool: UniswapV4Pool,
    zero_for_one: bool,
    amount_specified: Seq<u8>,
    sqrt_price_limit: Seq<u8>,
    hook_data: Seq<u8>,
) -> Seq<u8> {
    SWAP_SELECTOR@ + swap_arguments(
        pool.key(),
        zero_for_one,
        amount_specified,
        sqrt_price_limit,
        hook_data,
    )
}

impl UniswapV4Pool {
    /// Whether the fee and the tick spacing can be written on 24 bits.
    pub open spec fn key_fits(&self) -> bool {
        &&& self.pool_data.fee < 0x100_0000
        &&& 0 <= self.pool_data.tick_spacing < 0x100_0000
    }

    /// The key that the pool's data make up.
    pub open spec fn key(&self) -> PoolKey {
        PoolKey {
            currency0: self.pool_data.token_a.address,
            currency1: self.pool_data.token_b.address,
            fee: self.pool_data.fee,
            tick_spacing: word::twos_complement(
                self.pool_data.tick_spacing as nat,
                24,
            ) as i32,
            hooks: self.hooks,
        }
    }

    /// Whether `log` carries the signature hash of a change of a position.
    pub open spec fn is_modify_liquidity(log: Log) -> bool {
        log.topics@[0]@ == MODIFY_LIQUIDITY_SIGNATURE_HASH@
    }

    /// Whether `log` carries the signature hash of a swap.
    pub open spec fn is_swap(log: Log) -> bool {
        log.topics@[0]@ == SWAP_SIGNATURE_HASH@
    }

    /// The lower tick that the log of a change of a position announces.
    pub open spec fn tick_lower(log: Log) -> i32 {
        events::word_int24(events::data_word(log.data@, 0)) as i32
    }

    /// The upper tick that the log of a change of a position announces.
    pub open spec fn tick_upper(log: Log) -> i32 {
        events::word_int24(events::data_word(log.data@, 1)) as i32
    }

    /// The change of liquidity that the log of a change of a position announces.
    pub open spec fn liquidity_delta(log: Log) -> int {
        events::word_int256(events::data_word(log.data@, 2))
    }

    /// Whether a log can be followed: it has a topic, and where it is a change of a position, the
    /// change fits in 128 bits, and where it inverts a mark in the bitmap, the pool's tick spacing is
    /// known.
    pub open spec fn can_sync(&self, log: Log) -> bool {
        &&& log.topics@.len() > 0
        &&& Self::is_modify_liquidity(log) && events::modify_liquidity_defect(log) is None ==> {
            &&& i128::MIN <= Self::liquidity_delta(log) <= i128::MAX
            &&& self.pool_data.flips_marks(
                Self::tick_lower(log),
                Self::tick_upper(log),
                Self::liquidity_delta(log),
            ) ==> self.pool_data.tick_spacing != 0
        }
    }

    /// What following a log makes of `before`, and what it returns: a change of a position and a swap
    /// are taken over where they decode; any other log is refused. What is refused changes nothing.
    pub open spec fn sync_outcome(
        before: UniswapV4Pool,
        after: UniswapV4Pool,
        log: Log,
        r: Result<(), AMMError>,
    ) -> bool {
        &&& after.same_but_data(before)
        &&& r is Err ==> after == before
        &&& Self::is_modify_liquidity(log) ==> match events::modify_liquidity_defect(log) {
            Some(e) => r == Err::<(), AMMError>(AMMError::DecodeError(e)),
            None => position::position_outcome(
                before.pool_data,
                after.pool_data,
                Self::tick_lower(log),
                Self::tick_upper(log),
                Self::liquidity_delta(log),
                r,
            ),
        }
        &&& !Self::is_modify_liquidity(log) && Self::is_swap(log) ==> match events::swap_defect(
            log,
        ) {
            Some(e) => r == Err::<(), AMMError>(AMMError::DecodeError(e)),
            None => {
                &&& r is Ok
                &&& after.pool_data.sqrt_price@ == events::word_uint160(
                    events::data_word(log.data@, 2),
                )
                &&& after.pool_data.liquidity == events::word_uint128(
                    events::data_word(log.data@, 3),
                )
                &&& after.pool_data.tick == events::word_int24(events::data_word(log.data@, 4))
                &&& after.pool_data == (UniswapV3Pool {
                    sqrt_price: after.pool_data.sqrt_price,
                    liquidity: after.pool_data.liquidity,
                    tick: after.pool_data.tick,
                    ..before.pool_data
                })
            },
        }
        &&& !Self::is_modify_liquidity(log) && !Self::is_swap(log) ==> r == Err::<(), AMMError>(
            AMMError::UniswapV4Error(UniswapV4Error::UnknownEventSignature(log.topics@[0])),
        )
    }

    /// Whether all but the pool data is as in `other`.
    pub open spec fn same_but_data(&self, other: UniswapV4Pool) -> bool {
        &&& self.pool_key == other.pool_key
        &&& self.pool_id == other.pool_id
        &&& self.hooks == other.hooks
        &&& self.protocol_fee == other.protocol_fee
        &&& self.initialized == other.initialized
    }

    /// A pool at `address` of which nothing else is known.
    pub fn new(address: Address) -> (r: UniswapV4Pool)
        ensures
            r.pool_key.currency0@ == Seq::new(20, |i: int| 0u8),
            r.pool_key.currency1@ == Seq::new(20, |i: int| 0u8),
            r.pool_key.fee == 0,
            r.pool_key.tick_spacing == 0,
            r.pool_key.hooks@ == Seq::new(20, |i: int| 0u8),
            r.pool_id@ == Seq::new(32, |i: int| 0u8),
            r.pool_data.address == address,
            r.pool_data.token_a.address@ == Seq::new(20, |i: int| 0u8),
            r.pool_data.token_a.decimals == 0,
            r.pool_data.token_b.address@ == Seq::new(20, |i: int| 0u8),
            r.pool_data.token_b.decimals == 0,
            r.pool_data.liquidity == 0,
            r.pool_data.sqrt_price@ == 0,
            r.pool_data.fee == 0,
            r.pool_data.tick == 0,
            r.pool_data.tick_spacing == 0,
            r.pool_data.tick_bitmap@ == Map::<i16, U256>::empty(),
            r.pool_data.ticks@ == Map::<i32, crate::uniswap_v3::Info>::empty(),
            r.hooks@ == Seq::new(20, |i: int| 0u8),
            r.protocol_fee == 0,
            !r.initialized,
    {
        let nobody: Address = [0u8; 20];
        UniswapV4Pool {
            pool_key: PoolKey {
                currency0: nobody,
                currency1: nobody,
                fee: 0,
                tick_spacing: 0,
                hooks: nobody,
            },
            pool_id: [0u8; 32],
            pool_data: UniswapV3Pool::new(address),
            hooks: nobody,
            protocol_fee: 0,
            initialized: false,
        }
    }

    /// The address of the pool manager that holds the pool.
    pub fn address(&self) -> (r: Address)
        ensures
            r == self.pool_data.address,
    {
        self.pool_data.address
    }

    /// The two tokens' addresses.
    pub fn tokens(&self) -> (r: Vec<Address>)
        ensures
            r@ == seq![self.pool_data.token_a.address, self.pool_data.token_b.address],
    {
        self.pool_data.tokens()
    }

    /// The signature hashes of the events that concern a pool.
    pub fn sync_events(&self) -> (r: Vec<B256>)
        ensures
            r@ == seq![
                INITIALIZE_SIGNATURE_HASH,
                MODIFY_LIQUIDITY_SIGNATURE_HASH,
                SWAP_SIGNATURE_HASH,
            ],
    {
        let mut r: Vec<B256> = Vec::new();
        r.push(INITIALIZE_SIGNATURE_HASH);
        r.push(MODIFY_LIQUIDITY_SIGNATURE_HASH);
        r.push(SWAP_SIGNATURE_HASH);
        r
    }

    /// Whether a log can be followed, see `sync`.
    pub fn is_syncable(&self, log: &Log) -> (r: bool)
        ensures
            r == self.can_sync(*log),
    {
        if log.topics.len() == 0 {
            return false;
        }
        if !words_equal(&log.topics[0], &MODIFY_LIQUIDITY_SIGNATURE_HASH) {
            return true;
        }
        match decode_modify_liquidity(log) {
            Ok(event) => match int256_as_i128(&event.liquidity_delta) {
                Some(delta) => self.pool_data.tick_spacing != 0 || !self.pool_data.inverts_marks(
                    event.tick_lower,
                    event.tick_upper,
                    delta,
                ),
                None => false,
            },
            Err(_) => true,
        }
    }

    /// Follows a log: a change of a position changes the liquidity, a swap sets price, tick and
    /// active liquidity. Any other event, and a log that does not decode, is refused and changes
    /// nothing.
    pub fn sync(&mut self, log: &Log) -> (r: Result<(), AMMError>)
        requires
            old(self).can_sync(*log),
        ensures
            Self::sync_outcome(*old(self), *final(self), *log, r),
    {
        let event_signature = log.topics[0];
        if words_equal(&event_signature, &MODIFY_LIQUIDITY_SIGNATURE_HASH) {
            let event = match decode_modify_liquidity(log) {
                Ok(event) => event,
                Err(e) => {
                    return Err(AMMError::DecodeError(e));
                },
            };
            let delta: i128 = int256_as_i128(&event.liquidity_delta).unwrap();
            self.pool_data.modify_position(event.tick_lower, event.tick_upper, delta)
        } else if words_equal(&event_signature, &SWAP_SIGNATURE_HASH) {
            let event = match decode_swap(log) {
                Ok(event) => event,
                Err(e) => {
                    return Err(AMMError::DecodeError(e));
                },
            };
            self.pool_data.sqrt_price = event.sqrt_price_x96;
            self.pool_data.tick = event.tick;
            self.pool_data.liquidity = event.liquidity;
            Ok(())
        } else {
            Err(AMMError::UniswapV4Error(UniswapV4Error::UnknownEventSignature(event_signature)))
        }
    }

    /// The pool's key, once the pool is initialized.
    pub fn get_pool_key(&self) -> (r: Result<PoolKey, AMMError>)
        requires
            self.initialized ==> self.key_fits(),
        ensures
            self.initialized ==> r == Ok::<PoolKey, AMMError>(self.key()),
            !self.initialized ==> r == Err::<PoolKey, AMMError>(
                AMMError::UniswapV4Error(UniswapV4Error::NotInitialized),
            ),
    {
        if !self.initialized {
            return Err(AMMError::UniswapV4Error(UniswapV4Error::NotInitialized));
        }
        Ok(self.make_key())
    }

    /// The key that the pool's data make up.
    fn make_key(&self) -> (r: PoolKey)
        requires
            self.key_fits(),
        ensures
            r == self.key(),
            encoding::fits_int24(r.tick_spacing as int),
    {
        proof {
            lemma2_to64();
        }
        let spacing: i32 = self.pool_data.tick_spacing;
        PoolKey {
            currency0: self.pool_data.token_a.address,
            currency1: self.pool_data.token_b.address,
            fee: self.pool_data.fee,
            tick_spacing: if spacing < 0x80_0000 {
                spacing
            } else {
                spacing - 0x100_0000
            },
            hooks: self.hooks,
        }
    }

    /// The pool's identifier: the hash of its encoded key.
    pub fn get_pool_id(&self) -> (r: Result<B256, AMMError>)
        requires
            self.key_fits(),
        ensures
            r is Ok,
            r->Ok_0@ == encoding::keccak(self.key().words()),
    {
        let key = self.make_key();
        let encoded = abi_encode_key(
            &key.currency0,
            &key.currency1,
            key.fee,
            key.tick_spacing,
            &key.hooks,
        );
        Ok(keccak256(encoded.as_slice()))
    }

    /// The call data of a swap in this pool.
    pub fn swap_calldata(
        &self,
        zero_for_one: bool,
        amount_specified: I256,
        sqrt_price_limit_x_96: U256,
        hook_data: Vec<u8>,
    ) -> (r: Result<Vec<u8>, AMMError>)
        requires
            self.initialized ==> self.key_fits() && sqrt_price_limit_x_96@ < pow2(160),
        ensures
            !self.initialized ==> r == Err::<Vec<u8>, AMMError>(
                AMMError::UniswapV4Error(UniswapV4Error::NotInitialized),
            ),
            self.initialized ==> r is Ok && r->Ok_0@ == swap_call(
                *self,
                zero_for_one,
                amount_specified.be@,
                sqrt_price_limit_x_96.be@,
                hook_data@,
            ),
    {
        if !self.initialized {
            return Err(AMMError::UniswapV4Error(UniswapV4Error::NotInitialized));
        }
        let key = self.make_key();
        let arguments = abi_encode_swap_arguments(
            &key,
            zero_for_one,
            &amount_specified,
            &sqrt_price_limit_x_96,
            hook_data,
        );
        let selector: [u8; 4] = SWAP_SELECTOR;
        let mut out: Vec<u8> = Vec::new();
        append(&mut out, selector.as_slice());
        append(&mut out, arguments.as_slice());
        assert(out@ =~= SWAP_SELECTOR@ + arguments@);
        Ok(out)
    }

    /// The amount that a swap of `amount_in` gives, as `simulate` computes it from the pool data.
    pub fn simulate_swap<S: Fn(&UniswapV3Pool, Address, Address, U256) -> Result<U256, AMMError>>(
        &self,
        base_token: Address,
        quote_token: Address,
        amount_in: U256,
        simulate: S,
    ) -> (r: Result<U256, AMMError>)
        requires
            simulate.requires((&self.pool_data, base_token, quote_token, amount_in)),
        ensures
            simulate.ensures((&self.pool_data, base_token, quote_token, amount_in), r),
    {
        simulate(&self.pool_data, base_token, quote_token, amount_in)
    }

    /// The amount that a swap of `amount_in` gives, as `simulate` computes it from the pool data.
    /// The pool is left as it is.
    pub fn simulate_swap_mut<
        S: Fn(&UniswapV3Pool, Address, Address, U256) -> Result<U256, AMMError>,
    >(&mut self, base_token: Address, quote_token: Address, amount_in: U256, simulate: S) -> (r:
        Result<U256, AMMError>)
        requires
            simulate.requires((&old(self).pool_data, base_token, quote_token, amount_in)),
        ensures
            simulate.ensures((&old(self).pool_data, base_token, quote_token, amount_in), r),
            *final(self) == *old(self),
    {
        simulate(&self.pool_data, base_token, quote_token, amount_in)
    }

    /// Takes over the pool data that were read from the chain, and with them the key and the
    /// identifier.
    pub fn init(self, pool_data: UniswapV3Pool) -> (r: Result<UniswapV4Pool, AMMError>)
        requires
            pool_data.fee < 0x100_0000,
            0 <= pool_data.tick_spacing < 0x100_0000,
        ensures
            r is Ok,
            r->Ok_0.pool_data == pool_data,
            r->Ok_0.initialized,
            r->Ok_0.hooks == self.hooks,
            r->Ok_0.protocol_fee == self.protocol_fee,
            r->Ok_0.pool_key == r->Ok_0.key(),
            r->Ok_0.pool_id@ == encoding::keccak(r->Ok_0.key().words()),
    {
        let mut pool = self;
        pool.pool_data = pool_data;
        pool.initialized = true;
        pool.pool_key = match pool.get_pool_key() {
            Ok(key) => key,
            Err(e) => {
                return Err(e);
            },
        };
        pool.pool_id = match pool.get_pool_id() {
            Ok(id) => id,
            Err(e) => {
                return Err(e);
            },
        };
        Ok(pool)
    }
}

/// Appends bytes to a buffer.
fn append(out: &mut Vec<u8>, bytes: &[u8])
    ensures
        final(out)@ == old(out)@ + bytes@,
{
    out.extend_from_slice(bytes);
    assert(out@ =~= old(out)@ + bytes@);
}

/// A 256-bit signed integer as one of 128 bits, where it fits.
fn int256_as_i128(w: &B256) -> (r: Option<i128>)
    ensures
        r is Some <==> i128::MIN <= events::word_int256(w@) <= i128::MAX,
        r matches Some(v) ==> v == events::word_int256(w@),
{
    let high: u128 = crate::lense::be_u128(w, 0);
    let low: u128 = crate::lense::be_u128(w, 16);
    proof {
        assert(w@ =~= w@.subrange(0, 16) + w@.subrange(16, 32));
        word::lemma_be_value_append(w@.subrange(0, 16), w@.subrange(16, 32));
        lemma2_to64();
        lemma2_to64_rest();
        lemma_pow2_adds(64, 64);
        lemma_pow2_adds(64, 63);
        lemma_pow2_adds(128, 128);
        lemma_pow2_adds(128, 127);
        let p = pow2(128) as int;
        let h = high as int;
        let l = low as int;
        assert(p == u128::MAX + 1);
        assert(pow2(127) == i128::MAX + 1);
        assert(pow2(255) == p * pow2(127) as int);
        assert(pow2(256) == p * p);
        assert(word::be_value(w@) == h * p + l);
        let half = pow2(127) as int;
        assert(h == 0 ==> h * p + l == l);
        assert(h == p - 1 ==> h * p + l - p * p == l - p) by (nonlinear_arith);
        assert(h < half ==> h * p + l < p * half) by (nonlinear_arith)
            requires
                0 <= l < p,
        ;
        assert(h >= half ==> h * p + l >= p * half) by (nonlinear_arith)
            requires
                0 <= l < p,
        ;
        assert(1 <= h ==> h * p + l >= p) by (nonlinear_arith)
            requires
                0 <= l < p,
        ;
        assert(h <= p - 2 ==> h * p + l - p * p < -p) by (nonlinear_arith)
            requires
                0 <= l < p,
        ;
    }
    if high == 0 && low <= i128::MAX as u128 {
        Some(low as i128)
    } else if high == u128::MAX && low > i128::MAX as u128 {
        Some(-((u128::MAX - low) as i128) - 1)
    } else {
        None
    }
}

/// Whether a key's fee and tick spacing are integers of 24 bits.
pub open spec fn key_in_range(key: PoolKey) -> bool {
    key.fee < 0x100_0000 && encoding::fits_int24(key.tick_spacing as int)
}

/// Different keys are encoded as different bytes.
pub proof fn law_key_encoding_injective(a: PoolKey, b: PoolKey)
    requires
        key_in_range(a),
        key_in_range(b),
        a.words() == b.words(),
    ensures
        a == b,
{
    let m = pow2(256) as int;
    lemma2_to64();
    lemma_pow2_strictly_increases(32, 256);
    vstd::arithmetic::div_mod::lemma_mod_bound(a.tick_spacing as int, m);
    vstd::arithmetic::div_mod::lemma_mod_bound(b.tick_spacing as int, m);
    word::lemma_be_bytes_value(a.fee as nat, 32);
    word::lemma_be_bytes_value(b.fee as nat, 32);
    word::lemma_be_bytes_value((a.tick_spacing as int % m) as nat, 32);
    word::lemma_be_bytes_value((b.tick_spacing as int % m) as nat, 32);
    let x = a.words();
    let y = b.words();
    assert(x.subrange(12, 32) =~= a.currency0@);
    assert(y.subrange(12, 32) =~= b.currency0@);
    assert(x.subrange(44, 64) =~= a.currency1@);
    assert(y.subrange(44, 64) =~= b.currency1@);
    assert(x.subrange(64, 96) =~= word::uint_word(a.fee as nat));
    assert(y.subrange(64, 96) =~= word::uint_word(b.fee as nat));
    assert(x.subrange(96, 128) =~= word::int_word(a.tick_spacing as int));
    assert(y.subrange(96, 128) =~= word::int_word(b.tick_spacing as int));
    assert(x.subrange(140, 160) =~= a.hooks@);
    assert(y.subrange(140, 160) =~= b.hooks@);
    word::lemma_uint_word_injective(a.fee as nat, b.fee as nat);
    word::lemma_int_word_injective(a.tick_spacing as int, b.tick_spacing as int);
    assert forall|i: int| 0 <= i < 20 implies a.currency0[i] == b.currency0[i] by {
        assert(a.currency0@[i] == b.currency0@[i]);
    }
    assert forall|i: int| 0 <= i < 20 implies a.currency1[i] == b.currency1[i] by {
        assert(a.currency1@[i] == b.currency1@[i]);
    }
    assert forall|i: int| 0 <= i < 20 implies a.hooks[i] == b.hooks[i] by {
        assert(a.hooks@[i] == b.hooks@[i]);
    }
    assert(a.currency0 =~= b.currency0);
    assert(a.currency1 =~= b.currency1);
    assert(a.hooks =~= b.hooks);
}

/// The key that a pool's data make up is one of 24-bit integers.
pub proof fn law_key_in_range(pool: UniswapV4Pool)
    requires
        pool.key_fits(),
    ensures
        key_in_range(pool.key()),
{
    lemma2_to64();
}

/// Of the events that concern a pool, a pool follows changes of positions and swaps; the creation
/// of a pool is neither.
pub proof fn law_creation_is_not_followed(log: Log)
    requires
        log.topics@.len() > 0,
        log.topics@[0]@ == INITIALIZE_SIGNATURE_HASH@,
    ensures
        !UniswapV4Pool::is_modify_liquidity(log),
        !UniswapV4Pool::is_swap(log),
{
    assert(INITIALIZE_SIGNATURE_HASH@[0] == 0xdd);
    assert(MODIFY_LIQUIDITY_SIGNATURE_HASH@[0] == 0xf2);
    assert(SWAP_SIGNATURE_HASH@[0] == 0x40);
}

} // verus!
