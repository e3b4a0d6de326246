use uniswap_v4::amm::AMM;
use uniswap_v4::error::{AMMError, DecodeError};
use uniswap_v4::events::{Log, INITIALIZE_SIGNATURE_HASH};
use uniswap_v4::factory::{DiscoveryError, UniswapV4Factory, SYNC_STEP};

fn word(v: i64) -> [u8; 32] {
    let fill = if v < 0 { 0xff } else { 0 };
    let mut out = [fill; 32];
    out[24..].copy_from_slice(&v.to_be_bytes());
    out
}

fn address_word(a: [u8; 20]) -> [u8; 32] {
    let mut out = [0u8; 32];
    out[12..].copy_from_slice(&a);
    out
}

fn creation(id: u8, spacing: i64) -> Log {
    let mut data = Vec::new();
    data.extend_from_slice(&word(3000));
    data.extend_from_slice(&word(spacing));
    data.extend_from_slice(&address_word([8; 20]));
    data.extend_from_slice(&word(1 << 40));
    data.extend_from_slice(&word(-77));
    Log {
        address: [5; 20],
        topics: vec![
            INITIALIZE_SIGNATURE_HASH,
            [id; 32],
            address_word([1; 20]),
            address_word([2; 20]),
        ],
        data,
    }
}

fn factory() -> UniswapV4Factory {
    UniswapV4Factory::new([5; 20], 21688329)
}

#[test]
fn factory_keeps_address_and_block() {
    let f = factory();
    assert_eq!(f.address(), [5; 20]);
    assert_eq!(f.creation_block(), 21688329);
    assert_eq!(f.pool_creation_event(), INITIALIZE_SIGNATURE_HASH);
}

#[test]
fn a_creation_makes_a_pool() {
    let AMM::UniswapV4Pool(pool) = factory().create_pool(&creation(4, 60)).unwrap() else {
        panic!("a pool of another protocol");
    };
    assert_eq!(pool.pool_id, [4; 32]);
    assert_eq!(pool.pool_key.currency0, [1; 20]);
    assert_eq!(pool.pool_key.currency1, [2; 20]);
    assert_eq!(pool.pool_key.fee, 3000);
    assert_eq!(pool.pool_key.tick_spacing, 60);
    assert_eq!(pool.pool_key.hooks, [8; 20]);
    assert_eq!(pool.hooks, [8; 20]);
    assert_eq!(pool.pool_data.address, [5; 20]);
    assert_eq!(pool.pool_data.token_a.address, [1; 20]);
    assert_eq!(pool.pool_data.token_b.address, [2; 20]);
    assert_eq!(pool.pool_data.fee, 3000);
    assert_eq!(pool.pool_data.tick_spacing, 60);
    assert_eq!(pool.pool_data.tick, -77);
    assert_eq!(pool.pool_data.sqrt_price.be, word(1 << 40));
    assert_eq!(pool.protocol_fee, 0);
    assert!(pool.initialized);
    assert_eq!(pool.get_pool_key().unwrap(), pool.pool_key);
}

#[test]
fn a_negative_spacing_is_sign_extended() {
    let AMM::UniswapV4Pool(pool) = factory().create_pool(&creation(4, -3)).unwrap() else {
        panic!("a pool of another protocol");
    };
    assert_eq!(pool.pool_data.tick_spacing, -3);
}

#[test]
fn other_logs_make_no_pool() {
    let mut log = creation(4, 60);
    log.topics[0] = [0; 32];
    assert_eq!(
        factory().create_pool(&log).err(),
        Some(AMMError::DecodeError(DecodeError::SignatureHash))
    );
    let mut log = creation(4, 60);
    log.topics.push([0; 32]);
    assert_eq!(
        factory().create_pool(&log).err(),
        Some(AMMError::DecodeError(DecodeError::TopicCount))
    );
    let mut log = creation(4, 60);
    log.data.truncate(159);
    assert_eq!(
        factory().create_pool(&log).err(),
        Some(AMMError::DecodeError(DecodeError::Overrun))
    );
    let mut log = creation(4, 60);
    log.data.push(1);
    assert!(factory().create_pool(&log).is_ok());
}

#[test]
fn queries_cover_the_blocks() {
    let f = UniswapV4Factory::new([5; 20], 100);
    let queries = f.log_queries(Some(250_000));
    let windows: Vec<(u64, u64)> = queries.iter().map(|q| (q.from_block, q.to_block)).collect();
    assert_eq!(windows, vec![(100, 100_100), (100_101, 200_101), (200_102, 250_000)]);
    assert!(queries.iter().all(|q| q.address == [5; 20]));
    assert!(queries.iter().all(|q| q.event_signature == INITIALIZE_SIGNATURE_HASH));
}

#[test]
fn every_block_is_in_one_window() {
    let f = UniswapV4Factory::new([5; 20], 7);
    let last = 7 + 3 * (SYNC_STEP + 1) + 12;
    let queries = f.log_queries(Some(last));
    let mut next = 7;
    for q in &queries {
        assert_eq!(q.from_block, next);
        assert!(q.to_block - q.from_block <= SYNC_STEP);
        next = q.to_block + 1;
    }
    assert_eq!(next, last + 1);
}

#[test]
fn windows_of_full_length_end_before_the_last_block() {
    let f = UniswapV4Factory::new([5; 20], 0);
    let queries = f.log_queries(Some(SYNC_STEP + 1));
    assert_eq!(queries.len(), 1);
    assert_eq!(queries[0].to_block, SYNC_STEP);
}

#[test]
fn no_queries_before_the_creation_or_without_a_number() {
    assert!(factory().log_queries(Some(21688329)).is_empty());
    assert!(factory().log_queries(Some(5)).is_empty());
    assert!(factory().log_queries(None).is_empty());
}

#[test]
fn queries_reach_the_largest_block() {
    let f = UniswapV4Factory::new([5; 20], u64::MAX - 5);
    let queries = f.log_queries(Some(u64::MAX));
    assert_eq!(queries.len(), 1);
    assert_eq!((queries[0].from_block, queries[0].to_block), (u64::MAX - 5, u64::MAX));
}

#[test]
fn pools_of_all_results_are_found() {
    let results: Vec<Result<Vec<Log>, u8>> =
        vec![Ok(vec![creation(1, 1), creation(2, 10)]), Ok(vec![]), Ok(vec![creation(3, 60)])];
    let pools = factory().get_all_pools(results).unwrap();
    let ids: Vec<u8> = pools
        .iter()
        .map(|amm| match amm {
            AMM::UniswapV4Pool(pool) => pool.pool_id[0],
            AMM::UniswapV3Pool(_) => 0,
        })
        .collect();
    assert_eq!(ids, vec![1, 2, 3]);
}

#[test]
fn the_first_failure_ends_the_discovery() {
    let mut bad = creation(2, 1);
    bad.data.clear();
    let results: Vec<Result<Vec<Log>, u8>> = vec![Ok(vec![creation(1, 1)]), Err(9), Err(10)];
    assert_eq!(factory().get_all_pools(results).err(), Some(DiscoveryError::Query(9)));
    let results: Vec<Result<Vec<Log>, u8>> = vec![Ok(vec![creation(1, 1), bad]), Err(9)];
    assert_eq!(
        factory().get_all_pools(results).err(),
        Some(DiscoveryError::Pool(AMMError::DecodeError(DecodeError::Overrun)))
    );
}
