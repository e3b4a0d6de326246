//! The pool manager's events: the layout of their logs.
use vstd::arithmetic::power2::*;
use vstd::prelude::*;

use crate::error::DecodeError;
use crate::word::{self, Address, B256, U256};

verus! {

/// Signature hash of the event of a pool's creation, `Initialize(bytes32,address,address,uint24,int24,address,uint160,int24)`.
pub const INITIALIZE_SIGNATURE_HASH: B256 = [
    0xdd, 0x46, 0x6e, 0x67, 0x4e, 0xa5, 0x57, 0xf5,
    0x62, 0x95, 0xe2, 0xd0, 0x21, 0x8a, 0x12, 0x5e,
    0xa4, 0xb4, 0xf0, 0xf6, 0xf3, 0x30, 0x7b, 0x95,
    0xf8, 0x5e, 0x61, 0x10, 0x83, 0x8d, 0x64, 0x38,
];

/// Signature hash of the event of a change of a position, `ModifyLiquidity(bytes32,address,int24,int24,int256,bytes32)`.
pub const MODIFY_LIQUIDITY_SIGNATURE_HASH: B256 = [
    0xf2, 0x08, 0xf4, 0x91, 0x27, 0x82, 0xfd, 0x25,
    0xc7, 0xf1, 0x14, 0xca, 0x37, 0x23, 0xa2, 0xd5,
    0xdd, 0x6f, 0x3b, 0xcc, 0x3a, 0xc8, 0xdb, 0x5a,
    0xf6, 0x3b, 0xaa, 0x85, 0xf7, 0x11, 0xd5, 0xec,
];

/// Signature hash of the event of a swap, `Swap(bytes32,address,int128,int128,uint160,uint128,int24,uint24)`.
pub const SWAP_SIGNATURE_HASH: B256 = [
    0x40, 0xe9, 0xce, 0xcb, 0x9f, 0x5f, 0x1f, 0x1c,
    0x5b, 0x9c, 0x97, 0xde, 0xc2, 0x91, 0x7b, 0x7e,
    0xe9, 0x2e, 0x57, 0xba, 0x55, 0x63, 0x70, 0x8d,
    0xac, 0xa9, 0x4d, 0xd8, 0x4a, 0xd7, 0x11, 0x2f,
];

/// A log that a contract emitted.
#[derive(Debug, Clone)]
pub struct Log {
    pub address: Address,
    pub topics: Vec<B256>,
    pub data: Vec<u8>,
}

/// What a pool's creation announces.
#[derive(Debug, Clone, Copy)]
pub struct Initialize {
    pub id: B256,
    pub currency0: Address,
    pub currency1: Address,
    pub fee: u32,
    pub tick_spacing: i32,
    pub hooks: Address,
    pub sqrt_price_x96: U256,
    pub tick: i32,
}

/// What the change of a position announces.
#[derive(Debug, Clone, Copy)]
pub struct ModifyLiquidity {
    pub tick_lower: i32,
    pub tick_upper: i32,
    /// The change as a 256-bit two's complement word.
    pub liquidity_delta: B256,
}

/// What a swap announces of the pool's state after it.
#[derive(Debug, Clone, Copy)]
pub struct Swap {
    pub sqrt_price_x96: U256,
    pub liquidity: u128,
    pub tick: i32,
}

/// Word number `i` of ABI-encoded data.
pub open spec fn data_word(data: Seq<u8>, i: int) -> Seq<u8> {
    data.subrange(32 * i, 32 * i + 32)
}

/// The address in a word.
pub open spec fn word_address(w: Seq<u8>) -> Seq<u8> {
    w.skip(12)
}

/// The 24-bit unsigned integer in a word.
pub open spec fn word_uint24(w: Seq<u8>) -> nat {
    word::be_value(w.skip(29))
}

/// The 24-bit signed integer in a word.
pub open spec fn word_int24(w: Seq<u8>) -> int {
    word::twos_complement(word_uint24(w), 24)
}

/// The 128-bit unsigned integer in a word.
pub open spec fn word_uint128(w: Seq<u8>) -> nat {
    word::be_value(w.skip(16))
}

/// The 160-bit unsigned integer in a word.
pub open spec fn word_uint160(w: Seq<u8>) -> nat {
    word::be_value(w.skip(12))
}

/// The 256-bit signed integer in a word.
pub open spec fn word_int256(w: Seq<u8>) -> int {
    word::twos_complement(word::be_value(w), 256)
}

/// Why a log is not an event with the given signature hash, number of topics and number of data
/// words, if it is not. Bytes after the last word are ignored.
pub open spec fn log_defect(log: Log, signature_hash: Seq<u8>, topics: nat, words: nat) -> Option<
    DecodeError,
> {
    if log.topics@.len() != topics {
        Some(DecodeError::TopicCount)
    } else if log.topics@[0]@ != signature_hash {
        Some(DecodeError::SignatureHash)
    } else if log.data@.len() < 32 * words {
        Some(DecodeError::Overrun)
    } else {
        None
    }
}

/// Why a log is not a pool's creation, if it is not.
pub open spec fn initialize_defect(log: Log) -> Option<DecodeError> {
    log_defect(log, INITIALIZE_SIGNATURE_HASH@, 4, 5)
}

/// Why a log is not a change of a position, if it is not.
pub open spec fn modify_liquidity_defect(log: Log) -> Option<DecodeError> {
    log_defect(log, MODIFY_LIQUIDITY_SIGNATURE_HASH@, 3, 4)
}

/// Why a log is not a swap, if it is not.
pub open spec fn swap_defect(log: Log) -> Option<DecodeError> {
    log_defect(log, SWAP_SIGNATURE_HASH@, 3, 6)
}

/// Whether two words are equal.
pub fn words_equal(a: &B256, b: &B256) -> (r: bool)
    ensures
        r == (a@ == b@),
{
    let mut i: usize = 0;
    while i < 32
        invariant
            i <= 32,
            forall|j: int| 0 <= j < i ==> a@[j] == b@[j],
        decreases 32 - i,
    {
        if a[i] != b[i] {
            return false;
        }
        i = i + 1;
    }
    assert(a@ =~= b@);
    true
}

/// Word number `i` of ABI-encoded data.
fn read_word(data: &Vec<u8>, i: usize) -> (r: B256)
    requires
        i < 6,
        32 * i + 32 <= data@.len(),
    ensures
        r@ == data_word(data@, i as int),
{
    let mut r: B256 = [0u8; 32];
    let mut k: usize = 0;
    while k < 32
        invariant
            i < 6,
            32 * i + 32 <= data@.len(),
            k <= 32,
            forall|j: int| 0 <= j < k ==> r@[j] == data@[32 * i + j],
        decreases 32 - k,
    {
        r[k] = data[32 * i + k];
        k = k + 1;
    }
    assert(r@ =~= data_word(data@, i as int));
    r
}

/// The address in a word.
fn read_address(w: &B256) -> (r: Address)
    ensures
        r@ == word_address(w@),
{
    let mut r: Address = [0u8; 20];
    let mut k: usize = 0;
    while k < 20
        invariant
            k <= 20,
            forall|j: int| 0 <= j < k ==> r@[j] == w@[12 + j],
        decreases 20 - k,
    {
        r[k] = w[12 + k];
        k = k + 1;
    }
    assert(r@ =~= word_address(w@));
    r
}

/// The number that three bytes denote.
pub(crate) fn read_uint24(w: &B256, at: usize) -> (r: u32)
    requires
        at <= 29,
    ensures
        r == word::be_value(w@.subrange(at as int, at + 3)),
        r < 0x100_0000,
{
    proof {
        word::lemma_be_value_three(w@.subrange(at as int, at + 3));
    }
    w[at] as u32 * 0x1_0000 + w[at + 1] as u32 * 0x100 + w[at + 2] as u32
}

/// The number that three bytes denote in two's complement.
pub(crate) fn read_int24(w: &B256, at: usize) -> (r: i32)
    requires
        at <= 29,
    ensures
        r == word::twos_complement(word::be_value(w@.subrange(at as int, at + 3)), 24),
        crate::encoding::fits_int24(r as int),
{
    let v: u32 = read_uint24(w, at);
    proof {
        lemma2_to64();
    }
    if v < 0x80_0000 {
        v as i32
    } else {
        v as i32 - 0x100_0000
    }
}

/// The 160-bit unsigned integer in a word, as a 256-bit integer.
pub(crate) fn read_uint160(w: &B256) -> (r: U256)
    ensures
        r@ == word_uint160(w@),
{
    let mut be: B256 = *w;
    let mut k: usize = 0;
    while k < 12
        invariant
            k <= 12,
            forall|j: int| 0 <= j < k ==> be@[j] == 0,
            forall|j: int| k <= j < 32 ==> be@[j] == w@[j],
        decreases 12 - k,
    {
        be[k] = 0;
        k = k + 1;
    }
    proof {
        word::lemma_be_value_padded(be@, 12);
        assert(be@.skip(12) =~= w@.skip(12));
    }
    U256 { be }
}

/// Checks a log against an event's signature hash, number of topics and number of data words.
fn check_log(log: &Log, signature_hash: &B256, topics: usize, words: usize) -> (r: Result<
    (),
    DecodeError,
>)
    requires
        1 <= topics,
        words <= 6,
    ensures
        match log_defect(*log, signature_hash@, topics as nat, words as nat) {
            Some(e) => r == Err::<(), DecodeError>(e),
            None => r is Ok,
        },
{
    if log.topics.len() != topics {
        return Err(DecodeError::TopicCount);
    }
    if !words_equal(&log.topics[0], signature_hash) {
        return Err(DecodeError::SignatureHash);
    }
    if log.data.len() < 32 * words {
        return Err(DecodeError::Overrun);
    }
    Ok(())
}

/// Decodes the log of a pool's creation.
pub fn decode_initialize(log: &Log) -> (r: Result<Initialize, DecodeError>)
    ensures
        match initialize_defect(*log) {
            Some(e) => r == Err::<Initialize, DecodeError>(e),
            None => r is Ok,
        },
        r matches Ok(e) ==> {
            &&& e.id == log.topics@[1]
            &&& e.currency0@ == word_address(log.topics@[2]@)
            &&& e.currency1@ == word_address(log.topics@[3]@)
            &&& e.fee == word_uint24(data_word(log.data@, 0))
            &&& e.fee < 0x100_0000
            &&& e.tick_spacing == word_int24(data_word(log.data@, 1))
            &&& crate::encoding::fits_int24(e.tick_spacing as int)
            &&& e.hooks@ == word_address(data_word(log.data@, 2))
            &&& e.sqrt_price_x96@ == word_uint160(data_word(log.data@, 3))
            &&& e.tick == word_int24(data_word(log.data@, 4))
        },
{
    match check_log(log, &INITIALIZE_SIGNATURE_HASH, 4, 5) {
        Ok(()) => {},
        Err(e) => {
            return Err(e);
        },
    }
    let fee_word = read_word(&log.data, 0);
    let tick_spacing_word = read_word(&log.data, 1);
    let hooks_word = read_word(&log.data, 2);
    let sqrt_price_word = read_word(&log.data, 3);
    let tick_word = read_word(&log.data, 4);
    proof {
        assert(fee_word@.subrange(29, 32) =~= fee_word@.skip(29));
        assert(tick_spacing_word@.subrange(29, 32) =~= tick_spacing_word@.skip(29));
        assert(tick_word@.subrange(29, 32) =~= tick_word@.skip(29));
    }
    Ok(
        Initialize {
            id: log.topics[1],
            currency0: read_address(&log.topics[2]),
            currency1: read_address(&log.topics[3]),
            fee: read_uint24(&fee_word, 29),
            tick_spacing: read_int24(&tick_spacing_word, 29),
            hooks: read_address(&hooks_word),
            sqrt_price_x96: read_uint160(&sqrt_price_word),
            tick: read_int24(&tick_word, 29),
        },
    )
}

/// Decodes the log of a change of a position.
pub fn decode_modify_liquidity(log: &Log) -> (r: Result<ModifyLiquidity, DecodeError>)
    ensures
        match modify_liquidity_defect(*log) {
            Some(e) => r == Err::<ModifyLiquidity, DecodeError>(e),
            None => r is Ok,
        },
        r matches Ok(e) ==> {
            &&& e.tick_lower == word_int24(data_word(log.data@, 0))
            &&& crate::encoding::fits_int24(e.tick_lower as int)
            &&& e.tick_upper == word_int24(data_word(log.data@, 1))
            &&& crate::encoding::fits_int24(e.tick_upper as int)
            &&& e.liquidity_delta@ == data_word(log.data@, 2)
        },
{
    match check_log(log, &MODIFY_LIQUIDITY_SIGNATURE_HASH, 3, 4) {
        Ok(()) => {},
        Err(e) => {
            return Err(e);
        },
    }
    let tick_lower_word = read_word(&log.data, 0);
    let tick_upper_word = read_word(&log.data, 1);
    proof {
        assert(tick_lower_word@.subrange(29, 32) =~= tick_lower_word@.skip(29));
        assert(tick_upper_word@.subrange(29, 32) =~= tick_upper_word@.skip(29));
    }
    Ok(
        ModifyLiquidity {
            tick_lower: read_int24(&tick_lower_word, 29),
            tick_upper: read_int24(&tick_upper_word, 29),
            liquidity_delta: read_word(&log.data, 2),
        },
    )
}

/// Decodes the log of a swap.
pub fn decode_swap(log: &Log) -> (r: Result<Swap, DecodeError>)
    ensures
        match swap_defect(*log) {
            Some(e) => r == Err::<Swap, DecodeError>(e),
            None => r is Ok,
        },
        r matches Ok(e) ==> {
            &&& e.sqrt_price_x96@ == word_uint160(data_word(log.data@, 2))
            &&& e.liquidity == word_uint128(data_word(log.data@, 3))
            &&& e.tick == word_int24(data_word(log.data@, 4))
        },
{
    match check_log(log, &SWAP_SIGNATURE_HASH, 3, 6) {
        Ok(()) => {},
        Err(e) => {
            return Err(e);
        },
    }
    let sqrt_price_word = read_word(&log.data, 2);
    let liquidity_word = read_word(&log.data, 3);
    let tick_word = read_word(&log.data, 4);
    proof {
        assert(tick_word@.subrange(29, 32) =~= tick_word@.skip(29));
        assert(liquidity_word@.subrange(16, 32) =~= liquidity_word@.skip(16));
    }
    Ok(
        Swap {
            sqrt_price_x96: read_uint160(&sqrt_price_word),
            liquidity: crate::lense::be_u128(&liquidity_word, 16),
            tick: read_int24(&tick_word, 29),
        },
    )
}

/// The fields of a data word: unsigned integers are the word's number modulo their range, signed ones
/// are congruent to it and in their range, and an address is the word's last 20 bytes.
pub proof fn law_word_fields(data: Seq<u8>, i: int)
    requires
        0 <= i,
        32 * i + 32 <= data.len(),
    ensures
        ({
            let w = data_word(data, i);
            let v = word::be_value(data.subrange(32 * i, 32 * i + 32));
            &&& word_uint24(w) == v % pow2(24)
            &&& word_uint128(w) == v % pow2(128)
            &&& word_uint160(w) == v % pow2(160)
            &&& word_int24(w) % pow2(24) as int == v % pow2(24)
            &&& -0x80_0000 <= word_int24(w) < 0x80_0000
            &&& word_int256(w) % pow2(256) as int == v
            &&& -(pow2(255) as int) <= word_int256(w) < pow2(255)
            &&& word_address(w) == data.subrange(32 * i + 12, 32 * i + 32)
        }),
{
    let w = data_word(data, i);
    assert(w == data.subrange(32 * i, 32 * i + 32));
    lemma2_to64();
    word::lemma_be_value_parts(w, 29);
    word::lemma_be_value_parts(w, 16);
    word::lemma_be_value_parts(w, 12);
    word::lemma_be_value_bound(w.skip(29));
    word::lemma_be_value_bound(w);
    word::law_twos_complement(word::be_value(w.skip(29)), 24);
    word::law_twos_complement(word::be_value(w), 256);
    assert(word_address(w) =~= data.subrange(32 * i + 12, 32 * i + 32));
}

/// A log is an event where it has as many topics as the event, the event's signature hash among them
/// first, and a word of data for each field. What is missing is reported in this order.
pub proof fn law_log_defects(log: Log, signature_hash: Seq<u8>, topics: nat, words: nat)
    requires
        topics > 0,
    ensures
        log_defect(log, signature_hash, topics, words) is None <==> log.topics@.len() == topics
            && log.topics@[0]@ == signature_hash && log.data@.len() >= 32 * words,
        log_defect(log, signature_hash, topics, words) == Some(DecodeError::TopicCount)
            <==> log.topics@.len() != topics,
        log_defect(log, signature_hash, topics, words) == Some(DecodeError::SignatureHash)
            <==> log.topics@.len() == topics && log.topics@[0]@ != signature_hash,
        log_defect(log, signature_hash, topics, words) == Some(DecodeError::Overrun)
            <==> log.topics@.len() == topics && log.topics@[0]@ == signature_hash
            && log.data@.len() < 32 * words,
{
}

/// A pool's creation has four topics and five words, a change of a position three topics and four
/// words, a swap three topics and six words.
pub proof fn law_event_shapes(log: Log)
    ensures
        initialize_defect(log) is None <==> log.topics@.len() == 4 && log.topics@[0]@
            == INITIALIZE_SIGNATURE_HASH@ && log.data@.len() >= 160,
        initialize_defect(log) == Some(DecodeError::TopicCount) <==> log.topics@.len() != 4,
        initialize_defect(log) == Some(DecodeError::SignatureHash) <==> log.topics@.len() == 4
            && log.topics@[0]@ != INITIALIZE_SIGNATURE_HASH@,
        modify_liquidity_defect(log) is None <==> log.topics@.len() == 3 && log.topics@[0]@
            == MODIFY_LIQUIDITY_SIGNATURE_HASH@ && log.data@.len() >= 128,
        swap_defect(log) is None <==> log.topics@.len() == 3 && log.topics@[0]@
            == SWAP_SIGNATURE_HASH@ && log.data@.len() >= 192,
{
}

} // verus!
