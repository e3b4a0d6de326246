use alloy::primitives::aliases::{I24, U24};
use alloy::sol_types::SolValue;
use uniswap_v4::error::{AMMError, DecodeError, UniswapV3Error, UniswapV4Error};
use uniswap_v4::events::{
    Log, INITIALIZE_SIGNATURE_HASH, MODIFY_LIQUIDITY_SIGNATURE_HASH, SWAP_SIGNATURE_HASH,
};
use uniswap_v4::pool::UniswapV4Pool;
use uniswap_v4::uniswap_v3::UniswapV3Pool;
use uniswap_v4::word::{I256, U256};

const USDC: [u8; 20] = [
    0xa0, 0xb8, 0x69, 0x91, 0xc6, 0x21, 0x8b, 0x36, 0xc1, 0xd1, 0x9d, 0x4a, 0x2e, 0x9e, 0xb0, 0xce,
    0x36, 0x06, 0xeb, 0x48,
];

fn hex32(text: &str) -> [u8; 32] {
    let mut out = [0u8; 32];
    for i in 0..32 {
        out[i] = u8::from_str_radix(&text[2 * i..2 * i + 2], 16).unwrap();
    }
    out
}

fn usdc_pool() -> UniswapV4Pool {
    let mut pool = UniswapV4Pool::new([9; 20]);
    pool.pool_data.token_b.address = USDC;
    pool.pool_data.fee = 500;
    pool.pool_data.tick_spacing = 10;
    pool.initialized = true;
    pool
}

fn int_word(v: i128) -> [u8; 32] {
    let fill = if v < 0 { 0xff } else { 0 };
    let mut out = [fill; 32];
    out[16..].copy_from_slice(&v.to_be_bytes());
    out
}

fn modify_log(lower: i128, upper: i128, delta: [u8; 32]) -> Log {
    let mut data = Vec::new();
    data.extend_from_slice(&int_word(lower));
    data.extend_from_slice(&int_word(upper));
    data.extend_from_slice(&delta);
    data.extend_from_slice(&[0; 32]);
    Log { address: [9; 20], topics: vec![MODIFY_LIQUIDITY_SIGNATURE_HASH, [1; 32], [2; 32]], data }
}

fn swap_log(price: i128, liquidity: i128, tick: i128) -> Log {
    let mut data = Vec::new();
    for v in [-5, 6, price, liquidity, tick, 500] {
        data.extend_from_slice(&int_word(v));
    }
    Log { address: [9; 20], topics: vec![SWAP_SIGNATURE_HASH, [1; 32], [2; 32]], data }
}

#[test]
fn signature_hashes_are_the_hashes_of_the_signatures() {
    let cases = [
        (
            INITIALIZE_SIGNATURE_HASH,
            "Initialize(bytes32,address,address,uint24,int24,address,uint160,int24)",
        ),
        (
            MODIFY_LIQUIDITY_SIGNATURE_HASH,
            "ModifyLiquidity(bytes32,address,int24,int24,int256,bytes32)",
        ),
        (
            SWAP_SIGNATURE_HASH,
            "Swap(bytes32,address,int128,int128,uint160,uint128,int24,uint24)",
        ),
    ];
    for (hash, signature) in cases {
        assert_eq!(alloy::primitives::keccak256(signature.as_bytes()).0, hash);
    }
}

#[test]
fn sync_events_are_creation_position_and_swap() {
    let events = usdc_pool().sync_events();
    assert_eq!(
        events,
        vec![INITIALIZE_SIGNATURE_HASH, MODIFY_LIQUIDITY_SIGNATURE_HASH, SWAP_SIGNATURE_HASH]
    );
}

#[test]
fn new_pool_is_unsynced() {
    let pool = UniswapV4Pool::new([3; 20]);
    assert_eq!(pool.address(), [3; 20]);
    assert!(!pool.initialized);
    assert_eq!(pool.pool_id, [0; 32]);
    assert_eq!(pool.protocol_fee, 0);
    assert_eq!(pool.pool_data.liquidity, 0);
    assert!(pool.pool_data.sqrt_price.is_zero());
    assert_eq!(pool.tokens(), vec![[0; 20], [0; 20]]);
    assert_eq!(
        pool.get_pool_key(),
        Err(AMMError::UniswapV4Error(UniswapV4Error::NotInitialized))
    );
}

#[test]
fn pool_id_of_a_known_pool() {
    assert_eq!(
        usdc_pool().get_pool_id().unwrap(),
        hex32("21c67e77068de97969ba93d4aab21826d33ca12bb9f565d8496e8fda8a82ca27")
    );
}

#[test]
fn pool_key_of_the_pool_data() {
    let mut pool = usdc_pool();
    pool.hooks = [7; 20];
    let key = pool.get_pool_key().unwrap();
    assert_eq!(key.currency0, [0; 20]);
    assert_eq!(key.currency1, USDC);
    assert_eq!(key.fee, 500);
    assert_eq!(key.tick_spacing, 10);
    assert_eq!(key.hooks, [7; 20]);
}

#[test]
fn pool_key_reads_the_spacing_as_a_24_bit_integer() {
    let mut pool = usdc_pool();
    pool.pool_data.tick_spacing = 0xff_ffff;
    assert_eq!(pool.get_pool_key().unwrap().tick_spacing, -1);
    pool.pool_data.tick_spacing = 0x7f_ffff;
    assert_eq!(pool.get_pool_key().unwrap().tick_spacing, 0x7f_ffff);
}

#[test]
fn different_keys_have_different_ids() {
    let pool = usdc_pool();
    let mut other = usdc_pool();
    other.pool_data.tick_spacing = 11;
    assert_ne!(pool.get_pool_id().unwrap(), other.get_pool_id().unwrap());
    let mut other = usdc_pool();
    other.hooks = [1; 20];
    assert_ne!(pool.get_pool_id().unwrap(), other.get_pool_id().unwrap());
}

#[test]
fn init_takes_data_key_and_id_over() {
    let source = usdc_pool();
    let pool = UniswapV4Pool::new([9; 20]).init(source.pool_data.clone()).unwrap();
    assert!(pool.initialized);
    assert_eq!(pool.pool_key.currency1, USDC);
    assert_eq!(pool.pool_key.tick_spacing, 10);
    assert_eq!(
        pool.pool_id,
        hex32("21c67e77068de97969ba93d4aab21826d33ca12bb9f565d8496e8fda8a82ca27")
    );
}

#[test]
fn swap_calldata_is_the_encoded_call() {
    let pool = usdc_pool();
    let mut limit = [0u8; 32];
    limit[12] = 0xff;
    limit[31] = 0x21;
    for hook_data in [vec![], vec![0xaa; 5], vec![0xbb; 32], vec![0xcc; 33]] {
        let data = pool
            .swap_calldata(
                true,
                I256 { be: int_word(-1000) },
                U256::from_be_bytes(limit),
                hook_data.clone(),
            )
            .unwrap();
        let key = (
            alloy::primitives::Address::ZERO,
            alloy::primitives::Address::from(USDC),
            U24::from(500),
            I24::try_from(10).unwrap(),
            alloy::primitives::Address::ZERO,
        );
        let params = (
            true,
            alloy::primitives::I256::try_from(-1000).unwrap(),
            alloy::primitives::U160::from(alloy::primitives::U256::from_be_bytes(limit)),
        );
        let arguments = (key, params, alloy::primitives::Bytes::from(hook_data)).abi_encode_params();
        let signature =
            "swap((address,address,uint24,int24,address),(bool,int256,uint160),bytes)".as_bytes();
        let selector = alloy::primitives::keccak256(signature);
        assert_eq!(data[..4], selector.0[..4]);
        assert_eq!(data[4..], arguments[..]);
    }
}

#[test]
fn swap_calldata_words() {
    let data = usdc_pool()
        .swap_calldata(false, I256 { be: int_word(7) }, U256::from_byte(9), vec![1, 2, 3])
        .unwrap();
    assert_eq!(data.len(), 4 + 11 * 32);
    assert_eq!(data[..4], [0xf3, 0xcd, 0x91, 0x4c]);
    assert_eq!(data[4 + 5 * 32..4 + 6 * 32], int_word(0));
    assert_eq!(data[4 + 6 * 32..4 + 7 * 32], int_word(7));
    assert_eq!(data[4 + 7 * 32..4 + 8 * 32], int_word(9));
    assert_eq!(data[4 + 8 * 32..4 + 9 * 32], int_word(288));
    assert_eq!(data[4 + 9 * 32..4 + 10 * 32], int_word(3));
    assert_eq!(data[4 + 10 * 32..4 + 10 * 32 + 4], [1, 2, 3, 0]);
}

#[test]
fn swap_calldata_needs_an_initialized_pool() {
    let pool = UniswapV4Pool::new([9; 20]);
    assert_eq!(
        pool.swap_calldata(true, I256 { be: [0; 32] }, U256::from_be_bytes([0xff; 32]), vec![]),
        Err(AMMError::UniswapV4Error(UniswapV4Error::NotInitialized))
    );
}

#[test]
fn swap_sets_price_tick_and_liquidity() {
    let mut pool = usdc_pool();
    let log = swap_log(123456, 77, -200311);
    assert!(pool.is_syncable(&log));
    assert_eq!(pool.sync(&log), Ok(()));
    assert_eq!(pool.pool_data.sqrt_price.be, int_word(123456));
    assert_eq!(pool.pool_data.liquidity, 77);
    assert_eq!(pool.pool_data.tick, -200311);
    assert_eq!(pool.pool_data.fee, 500);
}

#[test]
fn swap_ignores_the_bytes_above_a_field() {
    let mut pool = usdc_pool();
    let mut log = swap_log(0, 1, 2);
    for k in 64..96 {
        log.data[k] = 0xff;
    }
    assert_eq!(pool.sync(&log), Ok(()));
    let mut expected = [0xff; 32];
    for k in 0..12 {
        expected[k] = 0;
    }
    assert_eq!(pool.pool_data.sqrt_price.be, expected);
}

#[test]
fn unknown_events_are_refused() {
    let mut pool = usdc_pool();
    let log = Log { address: [9; 20], topics: vec![[0x42; 32]], data: vec![] };
    assert_eq!(
        pool.sync(&log),
        Err(AMMError::UniswapV4Error(UniswapV4Error::UnknownEventSignature([0x42; 32])))
    );
}

#[test]
fn a_creation_is_not_followed() {
    let mut pool = usdc_pool();
    let log = Log { address: [9; 20], topics: vec![INITIALIZE_SIGNATURE_HASH], data: vec![] };
    assert_eq!(
        pool.sync(&log),
        Err(AMMError::UniswapV4Error(UniswapV4Error::UnknownEventSignature(
            INITIALIZE_SIGNATURE_HASH
        )))
    );
}

#[test]
fn undecodable_logs_are_refused() {
    let mut pool = usdc_pool();
    let mut log = swap_log(1, 2, 3);
    log.data.pop();
    assert_eq!(pool.sync(&log), Err(AMMError::DecodeError(DecodeError::Overrun)));
    let mut log = swap_log(1, 2, 3);
    log.topics.pop();
    assert_eq!(pool.sync(&log), Err(AMMError::DecodeError(DecodeError::TopicCount)));
    let mut log = modify_log(-10, 10, int_word(1));
    log.data.truncate(96);
    assert_eq!(pool.sync(&log), Err(AMMError::DecodeError(DecodeError::Overrun)));
    assert_eq!(pool.pool_data.liquidity, 0);
    assert_eq!(
        uniswap_v4::events::decode_swap(&modify_log(-10, 10, int_word(1))).err(),
        Some(DecodeError::SignatureHash)
    );
}

#[test]
fn a_log_without_topics_cannot_be_followed() {
    let log = Log { address: [9; 20], topics: vec![], data: vec![] };
    assert!(!usdc_pool().is_syncable(&log));
}

#[test]
fn a_change_beyond_128_bits_cannot_be_followed() {
    let mut delta = [0u8; 32];
    delta[15] = 1;
    assert!(!usdc_pool().is_syncable(&modify_log(-10, 10, delta)));
    let mut delta = [0u8; 32];
    delta[16] = 0x80;
    assert!(!usdc_pool().is_syncable(&modify_log(-10, 10, delta)));
    assert!(usdc_pool().is_syncable(&modify_log(-10, 10, int_word(i128::MIN))));
    assert!(usdc_pool().is_syncable(&modify_log(-10, 10, int_word(i128::MAX))));
}

#[test]
fn a_position_in_range_adds_liquidity_and_marks_its_ticks() {
    let mut pool = usdc_pool();
    assert_eq!(pool.sync(&modify_log(-20, 30, int_word(1000))), Ok(()));
    assert_eq!(pool.pool_data.liquidity, 1000);
    let lower = pool.pool_data.ticks[&-20];
    let upper = pool.pool_data.ticks[&30];
    assert_eq!((lower.liquidity_gross, lower.liquidity_net, lower.initialized), (1000, 1000, true));
    assert_eq!((upper.liquidity_gross, upper.liquidity_net, upper.initialized), (1000, -1000, true));
    assert!(pool.pool_data.tick_bitmap[&-1].bit(254));
    assert!(pool.pool_data.tick_bitmap[&0].bit(3));
    assert!(pool.pool_data.has_known_ticks());
    assert_eq!(pool.pool_data.initialized_ticks(), vec![-20, 30]);
}

#[test]
fn a_position_out_of_range_leaves_the_liquidity() {
    let mut pool = usdc_pool();
    assert_eq!(pool.sync(&modify_log(10, 30, int_word(1000))), Ok(()));
    assert_eq!(pool.pool_data.liquidity, 0);
    assert_eq!(pool.pool_data.ticks[&10].liquidity_gross, 1000);
}

#[test]
fn closing_a_position_undoes_opening_it() {
    let mut pool = usdc_pool();
    assert_eq!(pool.sync(&modify_log(-20, 30, int_word(50))), Ok(()));
    assert_eq!(pool.sync(&modify_log(-20, 40, int_word(1000))), Ok(()));
    assert_eq!(pool.pool_data.initialized_ticks(), vec![-20, 30, 40]);
    assert_eq!(pool.sync(&modify_log(-20, 40, int_word(-1000))), Ok(()));
    assert_eq!(pool.pool_data.liquidity, 50);
    assert_eq!(pool.pool_data.ticks.len(), 2);
    assert_eq!(pool.pool_data.ticks[&-20].liquidity_gross, 50);
    assert_eq!(pool.pool_data.initialized_ticks(), vec![-20, 30]);
}

#[test]
fn a_change_that_leaves_the_range_changes_nothing() {
    let mut pool = usdc_pool();
    let refused = Err(AMMError::UniswapV3Error(UniswapV3Error::LiquidityOutOfRange));
    assert_eq!(pool.sync(&modify_log(-20, 30, int_word(-1))), refused);
    assert!(pool.pool_data.ticks.is_empty());
    assert!(pool.pool_data.tick_bitmap.is_empty());
    assert_eq!(pool.sync(&modify_log(-20, 30, int_word(5))), Ok(()));
    assert_eq!(pool.sync(&modify_log(-20, 30, int_word(-6))), refused);
    assert_eq!(pool.pool_data.liquidity, 5);
}

#[test]
fn a_change_of_nothing_changes_nothing() {
    let mut pool = usdc_pool();
    assert_eq!(pool.sync(&modify_log(-20, 30, int_word(0))), Ok(()));
    assert!(pool.pool_data.ticks.is_empty());
}

#[test]
fn swaps_are_simulated_on_the_pool_data() {
    let double = |data: &UniswapV3Pool, base: [u8; 20], _quote: [u8; 20], amount: U256| {
        if data.token_b.address == base {
            Ok(amount.wrapping_add(amount))
        } else {
            Err(AMMError::UniswapV4Error(UniswapV4Error::NotInitialized))
        }
    };
    let mut pool = usdc_pool();
    let r = pool.simulate_swap(USDC, [0; 20], U256::from_byte(4), double);
    assert_eq!(r, Ok(U256::from_byte(8)));
    let r = pool.simulate_swap_mut(USDC, [0; 20], U256::from_byte(4), double);
    assert_eq!(r, Ok(U256::from_byte(8)));
    let r = pool.simulate_swap([0; 20], USDC, U256::from_byte(4), double);
    assert!(r.is_err());
}

#[test]
fn swap_data_are_decoded_as_alloy_decodes_them() {
    let mut log = swap_log(987654321, 5, -12345);
    for (k, byte) in log.data.iter_mut().enumerate() {
        *byte ^= (k * 37) as u8;
    }
    let (_, _, price, liquidity, tick, _) = <(
        i128,
        i128,
        alloy::primitives::U160,
        u128,
        I24,
        U24,
    ) as SolValue>::abi_decode_sequence(&log.data)
    .unwrap();
    let event = uniswap_v4::events::decode_swap(&log).unwrap();
    assert_eq!(event.sqrt_price_x96.be[12..], price.to_be_bytes::<20>());
    assert_eq!(event.sqrt_price_x96.be[..12], [0; 12]);
    assert_eq!(event.liquidity, liquidity);
    assert_eq!(event.tick, tick.as_i32());
}

#[test]
fn a_change_that_inverts_no_mark_needs_no_spacing() {
    let mut pool = usdc_pool();
    assert_eq!(pool.sync(&modify_log(-20, 30, int_word(1000))), Ok(()));
    pool.pool_data.tick_spacing = 0;
    for delta in [0, 5, -5, -2000] {
        assert!(pool.is_syncable(&modify_log(-20, 30, int_word(delta))));
    }
    assert!(!pool.is_syncable(&modify_log(-20, 30, int_word(-1000))));
    assert!(!pool.is_syncable(&modify_log(-20, 40, int_word(1))));
    assert_eq!(pool.sync(&modify_log(-20, 30, int_word(-400))), Ok(()));
    assert_eq!(pool.pool_data.liquidity, 600);
    assert_eq!(pool.pool_data.ticks[&30].liquidity_net, -600);
    assert_eq!(
        pool.sync(&modify_log(-20, 30, int_word(-2000))),
        Err(AMMError::UniswapV3Error(UniswapV3Error::LiquidityOutOfRange))
    );
    assert_eq!(pool.pool_data.liquidity, 600);
}
