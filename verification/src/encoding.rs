//! Keccak hashing and the contract ABI's encoding of static tuples, as the `alloy` crate
//! computes them.
use alloy::sol_types::SolValue;
use vstd::prelude::*;

use crate::pool::{self, PoolKey};
use crate::word::{self, Address, B256, I256, U256};

verus! {

/// The Keccak-256 digest of a byte sequence.
pub uninterp spec fn keccak(data: Seq<u8>) -> Seq<u8>;

/// Calls `alloy::primitives::keccak256`. Trusted: the digest is a function of the bytes alone.
#[verifier::external_body]
pub(crate) fn keccak256(data: &[u8]) -> (digest: B256)
    ensures
        digest@ == keccak(data@),
{
    alloy::primitives::keccak256(data).0
}

/// Whether `v` fits in a signed integer of 24 bits.
pub open spec fn fits_int24(v: int) -> bool {
    -0x80_0000 <= v < 0x80_0000
}

/// Calls `alloy::sol_types::SolValue::abi_encode` on a `(bytes32, uint256)` pair. Trusted: a
/// static pair is encoded as its two words, one after the other.
#[verifier::external_body]
pub(crate) fn abi_encode_words(first: &B256, second: &U256) -> (r: Vec<u8>)
    ensures
        r@ == first@ + second.be@,
{
    let first = alloy::primitives::B256::from(*first);
    let second = alloy::primitives::U256::from_be_bytes(second.be);
    (first, second).abi_encode()
}

/// Calls `alloy::sol_types::SolValue::abi_encode` on an `(int24, uint256)` pair. Trusted: the
/// integer is encoded as its two's complement word and is followed by the second word. The
/// conversion to 24 bits panics outside their range.
#[verifier::external_body]
pub(crate) fn abi_encode_int24_word(first: i32, second: &U256) -> (r: Vec<u8>)
    requires
        fits_int24(first as int),
    ensures
        r@ == word::int_word(first as int) + second.be@,
{
    let first = alloy::primitives::aliases::I24::try_from(first).unwrap();
    let second = alloy::primitives::U256::from_be_bytes(second.be);
    (first, second).abi_encode()
}

/// Calls `alloy::sol_types::SolValue::abi_encode` on an
/// `(address, address, uint24, int24, address)` tuple. Trusted: each component is encoded as one
/// word, in order. The conversions to 24 bits panic outside their range.
#[verifier::external_body]
pub(crate) fn abi_encode_key(
    currency0: &Address,
    currency1: &Address,
    fee: u32,
    tick_spacing: i32,
    hooks: &Address,
) -> (r: Vec<u8>)
    requires
        fee < 0x100_0000,
        fits_int24(tick_spacing as int),
    ensures
        r@ == word::address_word(currency0@) + word::address_word(currency1@)
            + word::uint_word(fee as nat) + word::int_word(tick_spacing as int)
            + word::address_word(hooks@),
{
    let currency0 = alloy::primitives::Address::from(*currency0);
    let currency1 = alloy::primitives::Address::from(*currency1);
    let fee = alloy::primitives::aliases::U24::from(fee);
    let tick_spacing = alloy::primitives::aliases::I24::try_from(tick_spacing).unwrap();
    let hooks = alloy::primitives::Address::from(*hooks);
    (currency0, currency1, fee, tick_spacing, hooks).abi_encode()
}

/// Calls `alloy::sol_types::SolValue::abi_encode_sequence` on the arguments of a swap,
/// `((address, address, uint24, int24, address), (bool, int256, uint160), bytes)`. Trusted: the
/// static components are encoded as one word each, the byte string as its offset, and behind all
/// of them as its length and its bytes, padded to whole words. The conversions to 24 and 160 bits
/// panic outside their range.
#[verifier::external_body]
pub(crate) fn abi_encode_swap_arguments(
    key: &PoolKey,
    zero_for_one: bool,
    amount_specified: &I256,
    sqrt_price_limit: &U256,
    hook_data: Vec<u8>,
) -> (r: Vec<u8>)
    requires
        key.fee < 0x100_0000,
        fits_int24(key.tick_spacing as int),
        sqrt_price_limit@ < vstd::arithmetic::power2::pow2(160),
    ensures
        r@ == pool::swap_arguments(
            *key,
            zero_for_one,
            amount_specified.be@,
            sqrt_price_limit.be@,
            hook_data@,
        ),
{
    let currency0 = alloy::primitives::Address::from(key.currency0);
    let currency1 = alloy::primitives::Address::from(key.currency1);
    let fee = alloy::primitives::aliases::U24::from(key.fee);
    let tick_spacing = alloy::primitives::aliases::I24::try_from(key.tick_spacing).unwrap();
    let hooks = alloy::primitives::Address::from(key.hooks);
    let key = (currency0, currency1, fee, tick_spacing, hooks);
    let amount = alloy::primitives::I256::from_be_bytes(amount_specified.be);
    let limit = alloy::primitives::U256::from_be_bytes(sqrt_price_limit.be);
    let params = (zero_for_one, amount, alloy::primitives::U160::from(limit));
    (key, params, alloy::primitives::Bytes::from(hook_data)).abi_encode_sequence()
}

} // verus!
