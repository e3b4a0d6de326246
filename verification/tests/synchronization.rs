use uniswap_v4::amm::AMM;
use uniswap_v4::factory::UniswapV4Factory;
use uniswap_v4::lense::{get_pool_state_slot, get_tick_bitmap_slot, get_tick_info_slot};
use uniswap_v4::pipeline::Stage;
use uniswap_v4::pool::UniswapV4Pool;
use uniswap_v4::tick_sync::{slot_queries, TickDataQuery};
use uniswap_v4::uniswap_v3::{tick_to_word, UniswapV3Pool};
use uniswap_v4::word::U256;

fn pool(id: u8, spacing: i32) -> UniswapV4Pool {
    let mut pool = UniswapV4Pool::new([9; 20]);
    pool.pool_id = [id; 32];
    pool.pool_data.tick_spacing = spacing;
    pool
}

fn slot_0(price: u8, tick: i32, protocol_fee: u8, fee: u8) -> [u8; 32] {
    let mut w = [0u8; 32];
    w[31] = price;
    w[9..12].copy_from_slice(&tick.to_be_bytes()[1..]);
    w[8] = protocol_fee;
    w[5] = fee;
    w[0] = 0xee;
    w
}

#[test]
fn words_of_ticks() {
    assert_eq!(tick_to_word(0, 10), 0);
    assert_eq!(tick_to_word(2559, 10), 0);
    assert_eq!(tick_to_word(2560, 10), 1);
    assert_eq!(tick_to_word(-1, 10), -1);
    assert_eq!(tick_to_word(-2560, 10), -1);
    assert_eq!(tick_to_word(-2561, 10), -2);
    assert_eq!(tick_to_word(-887272, 1), -3466);
    assert_eq!(tick_to_word(887272, 1), 3465);
    assert_eq!(tick_to_word(-887272, 60), -58);
    assert_eq!(tick_to_word(887272, 60), 57);
    assert_eq!(tick_to_word(i32::MIN, -1), 0x80_0000);
}

#[test]
fn word_range_is_that_of_the_lowest_and_highest_tick() {
    assert_eq!(pool(1, 1).pool_data.word_range(), (-3466, 3465));
    assert_eq!(pool(1, 60).pool_data.word_range(), (-58, 57));
}

#[test]
fn marked_ticks_are_listed_in_order() {
    let mut p = pool(1, 10);
    p.pool_data.tick_bitmap.insert(-1, U256::zero().flip_bit(255).flip_bit(0));
    p.pool_data.tick_bitmap.insert(0, U256::zero());
    p.pool_data.tick_bitmap.insert(2, U256::zero().flip_bit(3));
    assert!(p.pool_data.has_known_ticks());
    assert_eq!(p.pool_data.initialized_ticks(), vec![-2560, -10, 5150]);
}

#[test]
fn marks_outside_the_tick_range_are_not_listed() {
    let mut p = pool(1, 10);
    p.pool_data.tick_bitmap.insert(347, U256::from_byte(1));
    p.pool_data.tick_bitmap.insert(346, U256::from_byte(1));
    assert_eq!(p.pool_data.initialized_ticks(), vec![346 * 2560]);
}

#[test]
fn ticks_beyond_24_bits_are_not_known() {
    let mut p = pool(1, 40_000);
    p.pool_data.tick_bitmap.insert(0, U256::zero().flip_bit(255));
    assert!(!p.pool_data.has_known_ticks());
    p.pool_data.tick_bitmap.insert(0, U256::zero().flip_bit(200));
    assert!(p.pool_data.has_known_ticks());
    assert!(!pool(1, 0).pool_data.has_known_ticks());
}

#[test]
fn slot_0_is_unpacked() {
    let mut pools = vec![pool(1, 10), pool(2, 10)];
    let queries = UniswapV4Factory::slot_0_queries(&pools);
    assert_eq!(queries, vec![
        ([9; 20], get_pool_state_slot([1; 32])),
        ([9; 20], get_pool_state_slot([2; 32])),
    ]);
    let results: Vec<Result<[u8; 32], u8>> =
        vec![Ok(slot_0(5, -200311, 6, 7)), Ok(slot_0(8, 300, 9, 10))];
    assert_eq!(UniswapV4Factory::sync_slot_0(&mut pools, results), Ok(()));
    assert_eq!(pools[0].pool_data.sqrt_price, U256::from_byte(5));
    assert_eq!(pools[0].pool_data.tick, -200311);
    assert_eq!(pools[0].protocol_fee, 6);
    assert_eq!(pools[0].pool_data.fee, 7);
    assert_eq!(pools[1].pool_data.tick, 300);
    assert_eq!(pools[1].pool_id, [2; 32]);
}

#[test]
fn slot_0_stops_at_a_failure() {
    let mut pools = vec![pool(1, 10), pool(2, 10), pool(3, 10)];
    let results: Vec<Result<[u8; 32], u8>> =
        vec![Ok(slot_0(5, 1, 6, 7)), Err(44), Ok(slot_0(8, 3, 9, 10))];
    assert_eq!(UniswapV4Factory::sync_slot_0(&mut pools, results), Err(44));
    assert_eq!(pools[0].pool_data.tick, 1);
    assert_eq!(pools[1].pool_data.tick, 0);
    assert_eq!(pools[2].pool_data.tick, 0);
}

#[test]
fn decimals_are_taken_over_by_token() {
    let mut pools = vec![pool(1, 10), pool(2, 10)];
    pools[0].pool_data.token_a.address = [1; 20];
    pools[0].pool_data.token_b.address = [2; 20];
    pools[1].pool_data.token_a.address = [2; 20];
    pools[1].pool_data.token_b.address = [3; 20];
    pools[1].pool_data.token_b.decimals = 4;
    let mut tokens = UniswapV4Factory::token_addresses(&pools);
    tokens.sort();
    assert_eq!(tokens, vec![[1; 20], [2; 20], [3; 20]]);
    UniswapV4Factory::sync_token_decimals(&mut pools, &vec![([2; 20], 6), ([1; 20], 18)]);
    assert_eq!(pools[0].pool_data.token_a.decimals, 18);
    assert_eq!(pools[0].pool_data.token_b.decimals, 6);
    assert_eq!(pools[1].pool_data.token_a.decimals, 6);
    assert_eq!(pools[1].pool_data.token_b.decimals, 4);
}

#[test]
fn slots_are_queried_in_pieces() {
    let slots: Vec<U256> = (0..1001u32).map(|i| {
        let mut be = [0u8; 32];
        be[28..].copy_from_slice(&i.to_be_bytes());
        U256::from_be_bytes(be)
    }).collect();
    let pieces = slot_queries(&slots);
    let sizes: Vec<usize> = pieces.iter().map(|p| p.len()).collect();
    assert_eq!(sizes, vec![500, 500, 1]);
    assert_eq!(pieces.concat(), slots);
    assert!(slot_queries(&vec![]).is_empty());
    assert_eq!(slot_queries(&slots[..500].to_vec()).len(), 1);
}

#[test]
fn bitmap_slots_lie_strictly_inside_the_range() {
    let p = pool(7, 60);
    let slots = p.tick_bitmap_slots();
    assert_eq!(slots.len(), 57 + 57);
    assert_eq!(slots[0], get_tick_bitmap_slot([7; 32], -57 * 60 * 256));
    assert_eq!(slots[113], get_tick_bitmap_slot([7; 32], 56 * 60 * 256));
}

#[test]
fn bitmap_words_are_stored_from_the_first_word_on() {
    let mut pools = vec![pool(7, 60), pool(8, 60)];
    let mut a = [0u8; 32];
    a[31] = 1;
    let mut b = [0u8; 32];
    b[31] = 2;
    let results: Vec<Result<Vec<Vec<[u8; 32]>>, u8>> = vec![Ok(vec![vec![a], vec![b, a]]), Err(3)];
    assert_eq!(UniswapV4Factory::sync_tick_bitmap(&mut pools, results), Err(3));
    assert_eq!(pools[0].pool_data.tick_bitmap.len(), 3);
    assert_eq!(pools[0].pool_data.tick_bitmap[&-58], U256::from_byte(1));
    assert_eq!(pools[0].pool_data.tick_bitmap[&-57], U256::from_byte(2));
    assert_eq!(pools[0].pool_data.tick_bitmap[&-56], U256::from_byte(1));
    assert!(pools[1].pool_data.tick_bitmap.is_empty());
}

#[test]
fn no_more_words_are_stored_than_the_range_has() {
    let mut pools = vec![pool(7, 20_000)];
    assert_eq!(pools[0].pool_data.word_range(), (-1, 0));
    let results: Vec<Result<Vec<Vec<[u8; 32]>>, u8>> = vec![Ok(vec![vec![[1; 32]; 5]])];
    assert_eq!(UniswapV4Factory::sync_tick_bitmap(&mut pools, results), Ok(()));
    assert_eq!(pools[0].pool_data.tick_bitmap.len(), 2);
}

#[test]
fn ticks_of_the_bitmap_are_queried() {
    let mut pools = vec![pool(1, 10), pool(2, 10)];
    pools[1].pool_data.tick_bitmap.insert(0, U256::zero().flip_bit(4).flip_bit(1));
    let queries = UniswapV4Factory::tick_data_queries(&pools);
    assert_eq!(queries.len(), 1);
    assert_eq!(queries[0].pool, 1);
    assert_eq!(queries[0].ticks, vec![10, 40]);
    assert_eq!(queries[0].slots, vec![
        get_tick_info_slot([2; 32], 10),
        get_tick_info_slot([2; 32], 40),
    ]);
}

#[test]
fn each_answer_sets_one_tick_from_its_first_word() {
    let mut pools = vec![pool(1, 1)];
    pools[0].pool_data.tick_bitmap.insert(0, U256::zero().flip_bit(4).flip_bit(1));
    let queries = UniswapV4Factory::tick_data_queries(&pools);
    let mut w = [0u8; 32];
    w[15] = 3;
    w[31] = 8;
    let results: Vec<Result<Vec<Vec<[u8; 32]>>, u8>> = vec![Ok(vec![vec![w, [0xff; 32]]])];
    assert_eq!(UniswapV4Factory::sync_tick_data(&mut pools, &queries, results), Ok(()));
    assert_eq!(pools[0].pool_data.ticks.len(), 1);
    let info = pools[0].pool_data.ticks[&1];
    assert_eq!((info.liquidity_gross, info.liquidity_net, info.initialized), (8, 3, true));
}

#[test]
fn the_mark_is_looked_up_by_the_tick_itself() {
    let mut pools = vec![pool(1, 10)];
    pools[0].pool_data.tick_bitmap.insert(0, U256::zero().flip_bit(4));
    let queries = UniswapV4Factory::tick_data_queries(&pools);
    let results: Vec<Result<Vec<Vec<[u8; 32]>>, u8>> = vec![Ok(vec![vec![[0; 32]]])];
    assert_eq!(UniswapV4Factory::sync_tick_data(&mut pools, &queries, results), Ok(()));
    assert!(!pools[0].pool_data.ticks[&40].initialized);
}

#[test]
fn a_negative_tick_is_looked_up_in_the_word_toward_zero() {
    let mut pools = vec![pool(1, 1)];
    pools[0].pool_data.tick_bitmap.insert(0, U256::zero().flip_bit(253));
    let queries = vec![TickDataQuery { pool: 0, ticks: vec![-3], slots: vec![U256::zero()] }];
    let results: Vec<Result<Vec<Vec<[u8; 32]>>, u8>> = vec![Ok(vec![vec![[0; 32]]])];
    assert_eq!(UniswapV4Factory::sync_tick_data(&mut pools, &queries, results), Ok(()));
    assert!(pools[0].pool_data.ticks[&-3].initialized);
}

#[test]
fn tick_data_stop_at_a_failure() {
    let mut pools = vec![pool(1, 1), pool(2, 1)];
    pools[0].pool_data.tick_bitmap.insert(0, U256::from_byte(1));
    pools[1].pool_data.tick_bitmap.insert(0, U256::from_byte(1));
    let queries = UniswapV4Factory::tick_data_queries(&pools);
    let results: Vec<Result<Vec<Vec<[u8; 32]>>, u8>> = vec![Err(1), Ok(vec![vec![[0; 32]]])];
    assert_eq!(UniswapV4Factory::sync_tick_data(&mut pools, &queries, results), Err(1));
    assert!(pools[0].pool_data.ticks.is_empty());
    assert!(pools[1].pool_data.ticks.is_empty());
}

#[test]
fn pools_are_synchronized_in_stages() {
    let mut filled = pool(2, 1);
    filled.pool_data.liquidity = 9;
    filled.pool_data.token_a.address = [1; 20];
    filled.pool_data.token_b.address = [1; 20];
    let amms = vec![
        AMM::UniswapV4Pool(pool(1, 1)),
        AMM::UniswapV3Pool(UniswapV3Pool::new([4; 20])),
        AMM::UniswapV4Pool(filled),
    ];
    let mut sync = UniswapV4Factory::sync_all_pools(amms);
    assert_eq!(sync.stage, Stage::Slot0);
    assert_eq!(sync.pools.len(), 2);
    assert_eq!(sync.slot_0_read(vec![Err::<[u8; 32], u8>(7)]), Err(7));
    assert_eq!(sync.stage, Stage::Slot0);
    let words: Vec<Result<[u8; 32], u8>> = vec![Ok(slot_0(1, 2, 3, 4)), Ok(slot_0(5, 6, 7, 8))];
    assert_eq!(sync.slot_0_read(words), Ok(()));
    assert_eq!(sync.stage, Stage::TokenDecimals);
    assert_eq!(sync.token_decimals_read(Err::<Vec<([u8; 20], u8)>, u8>(8)), Err(8));
    assert_eq!(sync.pools.len(), 2);
    assert_eq!(sync.token_decimals_read(Ok::<_, u8>(vec![([1; 20], 18)])), Ok(()));
    assert_eq!(sync.stage, Stage::TickBitmap);
    assert_eq!(sync.pools.len(), 1);
    assert_eq!(sync.pools[0].pool_id, [1; 32]);
    let mut low = [0u8; 32];
    low[31] = 1;
    let words = vec![Ok::<_, u8>(vec![vec![[0; 32]; 3466], vec![low]])];
    assert_eq!(sync.tick_bitmap_read(words), Ok(()));
    assert_eq!(sync.stage, Stage::TickData);
    let queries = UniswapV4Factory::tick_data_queries(&sync.pools);
    assert_eq!(queries[0].ticks, vec![0]);
    let answers = vec![Ok::<_, u8>(vec![vec![low]])];
    assert_eq!(sync.tick_data_read(&queries, answers), Ok(()));
    assert_eq!(sync.stage, Stage::Synced);
    let amms = sync.into_amms();
    assert_eq!(amms.len(), 1);
    let AMM::UniswapV4Pool(done) = &amms[0] else {
        panic!("a pool of another protocol");
    };
    assert_eq!(done.pool_data.ticks[&0].liquidity_gross, 1);
    assert!(done.pool_data.ticks[&0].initialized);
}

#[test]
fn a_pool_without_decimals_is_kept() {
    let mut half = pool(2, 1);
    half.pool_data.liquidity = 9;
    half.pool_data.token_a.decimals = 18;
    let mut sync = UniswapV4Factory::sync_all_pools(vec![AMM::UniswapV4Pool(half)]);
    assert_eq!(sync.slot_0_read(Vec::<Result<[u8; 32], u8>>::new()), Ok(()));
    assert_eq!(sync.token_decimals_read(Ok::<_, u8>(vec![])), Ok(()));
    assert_eq!(sync.pools.len(), 1);
}

#[test]
fn pools_keep_their_identity() {
    let mut pools = vec![pool(1, 10), pool(2, 60)];
    pools[0].hooks = [3; 20];
    pools[0].pool_data.token_a.address = [4; 20];
    pools[1].pool_key.fee = 5;
    let before = pools.clone();
    let same = |pools: &Vec<UniswapV4Pool>| {
        for (a, b) in before.iter().zip(pools.iter()) {
            assert_eq!(a.pool_key, b.pool_key);
            assert_eq!(a.pool_id, b.pool_id);
            assert_eq!(a.hooks, b.hooks);
            assert_eq!(a.address(), b.address());
            assert_eq!(a.tokens(), b.tokens());
            assert_eq!(a.pool_data.tick_spacing, b.pool_data.tick_spacing);
        }
        assert_eq!(before.len(), pools.len());
    };
    let words: Vec<Result<[u8; 32], u8>> = vec![Ok([0xff; 32]), Ok([0x11; 32])];
    assert_eq!(UniswapV4Factory::sync_slot_0(&mut pools, words), Ok(()));
    same(&pools);
    UniswapV4Factory::sync_token_decimals(&mut pools, &vec![([4; 20], 9)]);
    same(&pools);
    let mut low = [0u8; 32];
    low[31] = 0x81;
    let bitmaps: Vec<Result<Vec<Vec<[u8; 32]>>, u8>> = vec![Ok(vec![vec![low]]), Ok(vec![vec![low]])];
    assert_eq!(UniswapV4Factory::sync_tick_bitmap(&mut pools, bitmaps), Ok(()));
    same(&pools);
    let queries = UniswapV4Factory::tick_data_queries(&pools);
    assert_eq!(queries.len(), 2);
    let answers: Vec<Result<Vec<Vec<[u8; 32]>>, u8>> = vec![Ok(vec![vec![low]]), Err(1)];
    assert_eq!(UniswapV4Factory::sync_tick_data(&mut pools, &queries, answers), Err(1));
    same(&pools);
    assert_eq!(pools[0].pool_data.ticks.len(), 1);
    assert!(pools[1].pool_data.ticks.is_empty());
}

#[test]
fn pools_behind_a_failure_need_no_spacing() {
    let mut pools = vec![pool(7, 20_000), pool(8, 0), pool(9, 0)];
    let results: Vec<Result<Vec<Vec<[u8; 32]>>, u8>> =
        vec![Ok(vec![vec![[1; 32]]]), Err(6), Ok(vec![])];
    assert_eq!(UniswapV4Factory::sync_tick_bitmap(&mut pools, results), Err(6));
    assert_eq!(pools[0].pool_data.tick_bitmap.len(), 1);
    assert!(pools[1].pool_data.tick_bitmap.is_empty());
    assert!(pools[2].pool_data.tick_bitmap.is_empty());
}
