use uniswap_v4::lense::{
    decode_liquidity, decode_liquidity_gross_and_net, get_pool_state_slot, get_position_info_slot,
    get_tick_bitmap_slot, get_tick_info_slot,
};
use uniswap_v4::word::U256;

fn hex32(text: &str) -> [u8; 32] {
    let mut out = [0u8; 32];
    for i in 0..32 {
        out[i] = u8::from_str_radix(&text[2 * i..2 * i + 2], 16).unwrap();
    }
    out
}

fn pool_id() -> [u8; 32] {
    hex32("21c67e77068de97969ba93d4aab21826d33ca12bb9f565d8496e8fda8a82ca27")
}

#[test]
fn pool_state_slot_of_a_known_pool() {
    assert_eq!(
        get_pool_state_slot(pool_id()).be,
        hex32("da8cac368d67cd2f2d8aaa5cc531768e0fa3b1d205c5c5de60da078e1f59bdfc")
    );
}

#[test]
fn tick_bitmap_slots_of_a_known_pool() {
    assert_eq!(
        get_tick_bitmap_slot(pool_id(), -200).be,
        hex32("bcdc4bc5149d2d16d99a4c16ec8be583b323a421e05081bfa5a43e3fff86f628")
    );
    assert_eq!(
        get_tick_bitmap_slot(pool_id(), 887270).be,
        hex32("06f97689115d79babca1a94c2bbbbaaf420e0d7de4db7a7e295d190176ac40f6")
    );
}

#[test]
fn tick_info_slots_of_a_known_pool() {
    assert_eq!(
        get_tick_info_slot(pool_id(), -200).be,
        hex32("acc2973ddab6ad5b58f640d71fb8668e201d908cbc4e9e4e1c441fb75c6aad03")
    );
    assert_eq!(
        get_tick_info_slot(pool_id(), 0).be,
        hex32("040a615a70a4944ad7c17e98edd3bfefcf4f2654a8ab6e767ae88090f9e3a250")
    );
}

#[test]
fn position_slot_of_a_known_pool() {
    assert_eq!(
        get_position_info_slot(pool_id(), [0x11; 32]).be,
        hex32("1e111b924a532ddfe6e0a76f96c18271cfddba3026de7b6112d8afc4bb3f4a1b")
    );
}

#[test]
fn extreme_24_bit_ticks_have_slots() {
    let low = get_tick_info_slot(pool_id(), -0x80_0000);
    let high = get_tick_info_slot(pool_id(), 0x7f_ffff);
    assert_ne!(low, high);
}

#[test]
fn different_ticks_and_mappings_have_different_slots() {
    let a = get_tick_info_slot(pool_id(), 10);
    let b = get_tick_info_slot(pool_id(), -10);
    let c = get_tick_bitmap_slot(pool_id(), 10);
    assert_ne!(a, b);
    assert_ne!(a, c);
}

#[test]
fn liquidity_halves_of_a_word() {
    let mut word = [0u8; 32];
    word[15] = 5;
    word[31] = 7;
    assert_eq!(decode_liquidity(word), 7);
    assert_eq!(decode_liquidity_gross_and_net(word), (7, 5));
}

#[test]
fn negative_net_liquidity() {
    let mut word = [0xffu8; 32];
    assert_eq!(decode_liquidity_gross_and_net(word), (u128::MAX, -1));
    word[0] = 0x80;
    for i in 1..16 {
        word[i] = 0;
    }
    assert_eq!(decode_liquidity_gross_and_net(word), (u128::MAX, i128::MIN));
    word[0] = 0x7f;
    for i in 1..16 {
        word[i] = 0xff;
    }
    assert_eq!(decode_liquidity_gross_and_net(word).1, i128::MAX);
}

#[test]
fn liquidity_word_is_net_above_gross() {
    let mut word = [0u8; 32];
    for i in 0..32 {
        word[i] = (17 * i + 3) as u8;
    }
    let (gross, net) = decode_liquidity_gross_and_net(word);
    let mut packed = [0u8; 32];
    packed[..16].copy_from_slice(&net.to_be_bytes());
    packed[16..].copy_from_slice(&gross.to_be_bytes());
    assert_eq!(packed, word);
}

#[test]
fn addition_wraps_at_256_bits() {
    let most = U256::from_be_bytes([0xff; 32]);
    assert!(most.wrapping_add(U256::from_byte(1)).is_zero());
    assert_eq!(most.wrapping_add(U256::from_byte(3)), U256::from_byte(2));
    let mut carried = [0u8; 32];
    carried[30] = 1;
    assert_eq!(U256::from_byte(255).wrapping_add(U256::from_byte(1)).be, carried);
}

#[test]
fn addition_agrees_with_alloy() {
    let mut x = [0u8; 32];
    let mut y = [0u8; 32];
    for i in 0..32 {
        x[i] = (31 * i + 200) as u8;
        y[i] = (91 * i + 77) as u8;
    }
    let expected = alloy::primitives::U256::from_be_bytes(x)
        .wrapping_add(alloy::primitives::U256::from_be_bytes(y));
    let sum = U256::from_be_bytes(x).wrapping_add(U256::from_be_bytes(y));
    assert_eq!(sum.be, expected.to_be_bytes::<32>());
}

#[test]
fn bits_are_read_and_flipped() {
    let zero = U256::zero();
    assert!(zero.is_zero());
    for i in [0usize, 7, 8, 100, 255] {
        let one = zero.flip_bit(i);
        assert!(one.bit(i));
        assert!(!one.is_zero());
        assert_eq!(one.flip_bit(i), zero);
        let expected = alloy::primitives::U256::from(1) << i;
        assert_eq!(one.be, expected.to_be_bytes::<32>());
    }
}
