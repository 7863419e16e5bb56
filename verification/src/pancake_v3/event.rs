//! PancakeSwap V3 pool events, read from raw logs.
use vstd::prelude::*;
use vstd::string::*;

use crate::abi::{
    abi_decode, be_value, topic, topic_address_spec, topic_spec, topic_to_address, word_at,
    AbiKind, AbiWord,
};
use crate::event::{EventEnvelope, EventModel};
use crate::num::{signed_value, I256, U256};
use crate::pancake_v2::event::{word_address, word_uint};
use crate::types::{Address, H256};

verus! {

pub open spec fn initialize_topic_spec() -> Seq<u8> {
    topic_spec("Initialize(uint160,int24)")
}

pub open spec fn mint_topic_spec() -> Seq<u8> {
    topic_spec("Mint(address,address,int24,int24,uint128,uint256,uint256)")
}

pub open spec fn burn_topic_spec() -> Seq<u8> {
    topic_spec("Burn(address,int24,int24,uint128,uint256,uint256)")
}

pub open spec fn swap_topic_spec() -> Seq<u8> {
    topic_spec("Swap(address,address,int256,int256,uint160,uint128,int24)")
}

pub open spec fn collect_topic_spec() -> Seq<u8> {
    topic_spec("Collect(address,address,int24,int24,uint128,uint128)")
}

pub fn initialize_topic() -> (r: H256)
    ensures
        r@ == initialize_topic_spec(),
{
    topic("Initialize(uint160,int24)")
}

pub fn mint_topic() -> (r: H256)
    ensures
        r@ == mint_topic_spec(),
{
    topic("Mint(address,address,int24,int24,uint128,uint256,uint256)")
}

pub fn burn_topic() -> (r: H256)
    ensures
        r@ == burn_topic_spec(),
{
    topic("Burn(address,int24,int24,uint128,uint256,uint256)")
}

pub fn swap_topic() -> (r: H256)
    ensures
        r@ == swap_topic_spec(),
{
    topic("Swap(address,address,int256,int256,uint160,uint128,int24)")
}

pub fn collect_topic() -> (r: H256)
    ensures
        r@ == collect_topic_spec(),
{
    topic("Collect(address,address,int24,int24,uint128,uint128)")
}

/// The five V3 event topics: initialize, mint, burn, swap, collect.
pub fn event_topics() -> (r: [H256; 5])
    ensures
        r@[0]@ == initialize_topic_spec(),
        r@[1]@ == mint_topic_spec(),
        r@[2]@ == burn_topic_spec(),
        r@[3]@ == swap_topic_spec(),
        r@[4]@ == collect_topic_spec(),
{
    [initialize_topic(), mint_topic(), burn_topic(), swap_topic(), collect_topic()]
}

/// A PancakeSwap V3 event; logs of other events read as `Unknown`.
#[derive(Clone, Copy, Debug, PartialEq, Eq)]
pub enum PancakeV3Event {
    Initialize { sqrt_price_x96: U256, tick: i32 },
    Mint {
        sender: Address,
        owner: Address,
        tick_lower: i32,
        tick_upper: i32,
        liquidity: U256,
        amount0: U256,
        amount1: U256,
    },
    Burn {
        owner: Address,
        tick_lower: i32,
        tick_upper: i32,
        liquidity: U256,
        amount0: U256,
        amount1: U256,
    },
    Swap {
        sender: Address,
        recipient: Address,
        amount0: I256,
        amount1: I256,
        sqrt_price_x96: U256,
        liquidity: U256,
        tick: i32,
    },
    Collect {
        sender: Address,
        recipient: Address,
        tick_lower: i32,
        tick_upper: i32,
        amount0: U256,
        amount1: U256,
    },
    Unknown,
}

/// Why a log cannot be read as a V3 event.
#[derive(Debug)]
pub enum PancakeV3EventError {
    MissingTopics,
    Decode(String),
}

impl PancakeV3EventError {
    /// The error's message.
    pub fn message(&self) -> (r: String)
        ensures
            r@ == match self {
                PancakeV3EventError::MissingTopics => "缺少事件主题(topic)"@,
                PancakeV3EventError::Decode(m) => "事件数据解析失败: "@ + m@,
            },
    {
        match self {
                PancakeV3EventError::MissingTopics => String::from_str("缺少事件主题(topic)"),
                PancakeV3EventError::Decode(m) => String::from_str("事件数据解析失败: ").concat(m.as_str()),
        }
    }
}

/// The signed value of a 32-byte word read in two's complement.
pub open spec fn word_signed(word: Seq<u8>) -> int {
    signed_value(be_value(word))
}

pub open spec fn fits_i32(v: int) -> bool {
    i32::MIN <= v <= i32::MAX
}

/// `ethers` `I256::as_i32`, which panics when the value does not fit.
#[verifier::external_body]
fn i256_as_i32(x: I256) -> (r: i32)
    requires
        fits_i32(x@),
    ensures
        r == x@,
{
    ethers::types::I256::from_raw(ethers::types::U256((x.0).0)).as_i32()
}

/// The 32-byte word of a topic read as a big-endian integer.
fn topic_to_u256(t: &H256) -> (r: U256)
    ensures
        r@ == be_value(t@),
{
    crate::abi::u256_from_be(&t.0)
}

fn topic_to_int24(t: &H256) -> (r: Result<i32, PancakeV3EventError>)
    requires
        fits_i32(word_signed(t@)),
    ensures
        r matches Ok(v) && v == word_signed(t@),
{
    let value = topic_to_u256(t);
    Ok(i256_as_i32(I256(value)))
}

fn decode_error(message: String) -> (r: PancakeV3EventError)
    ensures
        r == PancakeV3EventError::Decode(message),
{
    PancakeV3EventError::Decode(message)
}

fn expect_uint(word: &AbiWord) -> (r: Result<U256, PancakeV3EventError>)
    ensures
        word matches AbiWord::Uint(v) ==> (r matches Ok(u) && u@ == v@),
{
    match word {
        AbiWord::Uint(v) => Ok(*v),
        _ => Err(decode_error(String::from_str("期待 Uint"))),
    }
}

fn expect_int_256(word: &AbiWord) -> (r: Result<I256, PancakeV3EventError>)
    ensures
        word matches AbiWord::Int(v) ==> (r matches Ok(u) && u.0@ == v@),
{
    match word {
        AbiWord::Int(v) => Ok(I256(*v)),
        _ => Err(decode_error(String::from_str("期待 Int256"))),
    }
}

fn expect_int(word: &AbiWord) -> (r: Result<i32, PancakeV3EventError>)
    requires
        word matches AbiWord::Int(v) ==> fits_i32(signed_value(v@)),
    ensures
        word matches AbiWord::Int(v) ==> (r matches Ok(u) && u == signed_value(v@)),
{
    match word {
        AbiWord::Int(v) => Ok(i256_as_i32(I256(*v))),
        _ => Err(decode_error(String::from_str("期待 Int"))),
    }
}

/// The reading of a log as a V3 event does not reach a tick that lies
/// outside the `i32` range (where `as_i32` would panic).
pub open spec fn v3_ticks_fit(e: EventModel) -> bool {
    if e.topics.len() == 0 {
        true
    } else if e.topics[0] == initialize_topic_spec() {
        e.payload.len() >= 64 ==> fits_i32(word_signed(word_at(e.payload, 1)))
    } else if e.topics[0] == mint_topic_spec() || e.topics[0] == burn_topic_spec() {
        e.topics.len() >= 4 ==> fits_i32(word_signed(e.topics[2])) && fits_i32(
            word_signed(e.topics[3]),
        )
    } else if e.topics[0] == swap_topic_spec() {
        e.topics.len() >= 3 && e.payload.len() >= 160 ==> fits_i32(
            word_signed(word_at(e.payload, 4)),
        )
    } else if e.topics[0] == collect_topic_spec() {
        e.topics.len() >= 4 ==> fits_i32(word_signed(e.topics[2])) && fits_i32(
            word_signed(e.topics[3]),
        )
    } else {
        true
    }
}

/// What reading a log as a V3 event gives: the first topic selects the
/// event (initialize, mint, burn, swap, collect, in that order of tests),
/// indexed values come from the further topics and the rest from the
/// payload words; other logs read as `Unknown`.
pub open spec fn v3_parse_result(e: EventModel, r: Result<PancakeV3Event, PancakeV3EventError>) -> bool {
    if e.topics.len() == 0 {
        r matches Err(PancakeV3EventError::MissingTopics)
    } else if e.topics[0] == initialize_topic_spec() {
        if e.payload.len() < 64 {
            r matches Err(PancakeV3EventError::Decode(_))
        } else {
            r matches Ok(PancakeV3Event::Initialize { sqrt_price_x96, tick })
                && sqrt_price_x96@ == word_uint(e.payload, 0) && tick == word_signed(
                word_at(e.payload, 1),
            )
        }
    } else if e.topics[0] == mint_topic_spec() {
        if e.topics.len() < 4 {
            r matches Err(PancakeV3EventError::MissingTopics)
        } else if e.payload.len() < 128 {
            r matches Err(PancakeV3EventError::Decode(_))
        } else {
            r matches Ok(
                PancakeV3Event::Mint {
                    sender,
                    owner,
                    tick_lower,
                    tick_upper,
                    liquidity,
                    amount0,
                    amount1,
                },
            ) && sender@ == word_address(e.payload, 0) && owner@ == topic_address_spec(e.topics[1])
                && tick_lower == word_signed(e.topics[2]) && tick_upper == word_signed(e.topics[3])
                && liquidity@ == word_uint(e.payload, 1) && amount0@ == word_uint(e.payload, 2)
                && amount1@ == word_uint(e.payload, 3)
        }
    } else if e.topics[0] == burn_topic_spec() {
        if e.topics.len() < 4 {
            r matches Err(PancakeV3EventError::MissingTopics)
        } else if e.payload.len() < 96 {
            r matches Err(PancakeV3EventError::Decode(_))
        } else {
            r matches Ok(
                PancakeV3Event::Burn { owner, tick_lower, tick_upper, liquidity, amount0, amount1 },
            ) && owner@ == topic_address_spec(e.topics[1]) && tick_lower == word_signed(
                e.topics[2],
            ) && tick_upper == word_signed(e.topics[3]) && liquidity@ == word_uint(e.payload, 0)
                && amount0@ == word_uint(e.payload, 1) && amount1@ == word_uint(e.payload, 2)
        }
    } else if e.topics[0] == swap_topic_spec() {
        if e.topics.len() < 3 {
            r matches Err(PancakeV3EventError::MissingTopics)
        } else if e.payload.len() < 160 {
            r matches Err(PancakeV3EventError::Decode(_))
        } else {
            r matches Ok(
                PancakeV3Event::Swap {
                    sender,
                    recipient,
                    amount0,
                    amount1,
                    sqrt_price_x96,
                    liquidity,
                    tick,
                },
            ) && sender@ == topic_address_spec(e.topics[1]) && recipient@ == topic_address_spec(
                e.topics[2],
            ) && amount0.0@ == word_uint(e.payload, 0) && amount1.0@ == word_uint(e.payload, 1)
                && sqrt_price_x96@ == word_uint(e.payload, 2) && liquidity@ == word_uint(
                e.payload,
                3,
            ) && tick == word_signed(word_at(e.payload, 4))
        }
    } else if e.topics[0] == collect_topic_spec() {
        if e.topics.len() < 4 {
            r matches Err(PancakeV3EventError::MissingTopics)
        } else if e.payload.len() < 96 {
            r matches Err(PancakeV3EventError::Decode(_))
        } else {
            r matches Ok(
                PancakeV3Event::Collect {
                    sender,
                    recipient,
                    tick_lower,
                    tick_upper,
                    amount0,
                    amount1,
                },
            ) && sender@ == topic_address_spec(e.topics[1]) && recipient@ == word_address(
                e.payload,
                0,
            ) && tick_lower == word_signed(e.topics[2]) && tick_upper == word_signed(e.topics[3])
                && amount0@ == word_uint(e.payload, 1) && amount1@ == word_uint(e.payload, 2)
        }
    } else {
        r matches Ok(PancakeV3Event::Unknown)
    }
}

fn parse_initialize(event: &EventEnvelope) -> (r: Result<PancakeV3Event, PancakeV3EventError>)
    requires
        event@.topics.len() > 0,
        event@.topics[0] == initialize_topic_spec(),
        v3_ticks_fit(event@),
    ensures
        v3_parse_result(event@, r),
{
    let kinds = [AbiKind::Uint(160), AbiKind::Int(24)];
    let decoded = match abi_decode(&kinds, event.payload.as_slice()) {
        Ok(words) => words,
        Err(message) => return Err(decode_error(message)),
    };
    assert(crate::abi::word_decodes(kinds@[0], word_at(event.payload@, 0), decoded@[0]));
    assert(crate::abi::word_decodes(kinds@[1], word_at(event.payload@, 1), decoded@[1]));
    let sqrt_price = expect_uint(&decoded[0])?;
    let tick = expect_int(&decoded[1])?;
    Ok(PancakeV3Event::Initialize { sqrt_price_x96: sqrt_price, tick })
}

fn parse_mint(event: &EventEnvelope) -> (r: Result<PancakeV3Event, PancakeV3EventError>)
    requires
        event@.topics.len() > 0,
        event@.topics[0] == mint_topic_spec(),
        event@.topics[0] != initialize_topic_spec(),
        v3_ticks_fit(event@),
    ensures
        v3_parse_result(event@, r),
{
    if event.topics.len() < 4 {
        return Err(PancakeV3EventError::MissingTopics);
    }
    let owner = topic_to_address(&event.topics[1]);
    let tick_lower = topic_to_int24(&event.topics[2])?;
    let tick_upper = topic_to_int24(&event.topics[3])?;
    let kinds = [AbiKind::Address, AbiKind::Uint(128), AbiKind::Uint(256), AbiKind::Uint(256)];
    let decoded = match abi_decode(&kinds, event.payload.as_slice()) {
        Ok(words) => words,
        Err(message) => return Err(decode_error(message)),
    };
    assert(crate::abi::word_decodes(kinds@[0], word_at(event.payload@, 0), decoded@[0]));
    assert(crate::abi::word_decodes(kinds@[1], word_at(event.payload@, 1), decoded@[1]));
    assert(crate::abi::word_decodes(kinds@[2], word_at(event.payload@, 2), decoded@[2]));
    assert(crate::abi::word_decodes(kinds@[3], word_at(event.payload@, 3), decoded@[3]));
    let sender = match decoded[0] {
        AbiWord::Address(a) => a,
        _ => return Err(decode_error(String::from_str("sender address 缺失"))),
    };
    let liquidity = expect_uint(&decoded[1])?;
    let amount0 = expect_uint(&decoded[2])?;
    let amount1 = expect_uint(&decoded[3])?;
    Ok(
        PancakeV3Event::Mint {
            sender,
            owner,
            tick_lower,
            tick_upper,
            liquidity,
            amount0,
            amount1,
        },
    )
}

fn parse_burn(event: &EventEnvelope) -> (r: Result<PancakeV3Event, PancakeV3EventError>)
    requires
        event@.topics.len() > 0,
        event@.topics[0] == burn_topic_spec(),
        event@.topics[0] != initialize_topic_spec(),
        event@.topics[0] != mint_topic_spec(),
        v3_ticks_fit(event@),
    ensures
        v3_parse_result(event@, r),
{
    if event.topics.len() < 4 {
        return Err(PancakeV3EventError::MissingTopics);
    }
    let owner = topic_to_address(&event.topics[1]);
    let tick_lower = topic_to_int24(&event.topics[2])?;
    let tick_upper = topic_to_int24(&event.topics[3])?;
    let kinds = [AbiKind::Uint(128), AbiKind::Uint(256), AbiKind::Uint(256)];
    let decoded = match abi_decode(&kinds, event.payload.as_slice()) {
        Ok(words) => words,
        Err(message) => return Err(decode_error(message)),
    };
    assert(crate::abi::word_decodes(kinds@[0], word_at(event.payload@, 0), decoded@[0]));
    assert(crate::abi::word_decodes(kinds@[1], word_at(event.payload@, 1), decoded@[1]));
    assert(crate::abi::word_decodes(kinds@[2], word_at(event.payload@, 2), decoded@[2]));
    let liquidity = expect_uint(&decoded[0])?;
    let amount0 = expect_uint(&decoded[1])?;
    let amount1 = expect_uint(&decoded[2])?;
    Ok(PancakeV3Event::Burn { owner, tick_lower, tick_upper, liquidity, amount0, amount1 })
}

fn parse_swap(event: &EventEnvelope) -> (r: Result<PancakeV3Event, PancakeV3EventError>)
    requires
        event@.topics.len() > 0,
        event@.topics[0] == swap_topic_spec(),
        event@.topics[0] != initialize_topic_spec(),
        event@.topics[0] != mint_topic_spec(),
        event@.topics[0] != burn_topic_spec(),
        v3_ticks_fit(event@),
    ensures
        v3_parse_result(event@, r),
{
    if event.topics.len() < 3 {
        return Err(PancakeV3EventError::MissingTopics);
    }
    let sender = topic_to_address(&event.topics[1]);
    let recipient = topic_to_address(&event.topics[2]);
    let kinds = [
        AbiKind::Int(256),
        AbiKind::Int(256),
        AbiKind::Uint(160),
        AbiKind::Uint(128),
        AbiKind::Int(24),
    ];
    let decoded = match abi_decode(&kinds, event.payload.as_slice()) {
        Ok(words) => words,
        Err(message) => return Err(decode_error(message)),
    };
    assert(crate::abi::word_decodes(kinds@[0], word_at(event.payload@, 0), decoded@[0]));
    assert(crate::abi::word_decodes(kinds@[1], word_at(event.payload@, 1), decoded@[1]));
    assert(crate::abi::word_decodes(kinds@[2], word_at(event.payload@, 2), decoded@[2]));
    assert(crate::abi::word_decodes(kinds@[3], word_at(event.payload@, 3), decoded@[3]));
    assert(crate::abi::word_decodes(kinds@[4], word_at(event.payload@, 4), decoded@[4]));
    let amount0 = expect_int_256(&decoded[0])?;
    let amount1 = expect_int_256(&decoded[1])?;
    let sqrt_price_x96 = expect_uint(&decoded[2])?;
    let liquidity = expect_uint(&decoded[3])?;
    let tick = expect_int(&decoded[4])?;
    Ok(
        PancakeV3Event::Swap {
            sender,
            recipient,
            amount0,
            amount1,
            sqrt_price_x96,
            liquidity,
            tick,
        },
    )
}

fn parse_collect(event: &EventEnvelope) -> (r: Result<PancakeV3Event, PancakeV3EventError>)
    requires
        event@.topics.len() > 0,
        event@.topics[0] == collect_topic_spec(),
        event@.topics[0] != initialize_topic_spec(),
        event@.topics[0] != mint_topic_spec(),
        event@.topics[0] != burn_topic_spec(),
        event@.topics[0] != swap_topic_spec(),
        v3_ticks_fit(event@),
    ensures
        v3_parse_result(event@, r),
{
    if event.topics.len() < 4 {
        return Err(PancakeV3EventError::MissingTopics);
    }
    let sender = topic_to_address(&event.topics[1]);
    let tick_lower = topic_to_int24(&event.topics[2])?;
    let tick_upper = topic_to_int24(&event.topics[3])?;
    let kinds = [AbiKind::Address, AbiKind::Uint(128), AbiKind::Uint(128)];
    let decoded = match abi_decode(&kinds, event.payload.as_slice()) {
        Ok(words) => words,
        Err(message) => return Err(decode_error(message)),
    };
    assert(crate::abi::word_decodes(kinds@[0], word_at(event.payload@, 0), decoded@[0]));
    assert(crate::abi::word_decodes(kinds@[1], word_at(event.payload@, 1), decoded@[1]));
    assert(crate::abi::word_decodes(kinds@[2], word_at(event.payload@, 2), decoded@[2]));
    let recipient = match decoded[0] {
        AbiWord::Address(a) => a,
        _ => return Err(decode_error(String::from_str("recipient address 缺失"))),
    };
    let amount0 = expect_uint(&decoded[1])?;
    let amount1 = expect_uint(&decoded[2])?;
    Ok(
        PancakeV3Event::Collect {
            sender,
            recipient,
            tick_lower,
            tick_upper,
            amount0,
            amount1,
        },
    )
}

/// Whether every tick in a log lies in the `i32` range, so that it can be
/// read without a panic.
pub fn ticks_fit(event: &EventEnvelope) -> (r: bool)
    ensures
        r == v3_ticks_fit(event@),
{
    if event.topics.len() == 0 {
        return true;
    }
    let topic0 = event.topics[0];
    if topic0.same(&initialize_topic()) {
        if event.payload.len() < 64 {
            return true;
        }
        let kinds = [AbiKind::Uint(160), AbiKind::Int(24)];
        match abi_decode(&kinds, event.payload.as_slice()) {
            Ok(words) => {
                assert(crate::abi::word_decodes(kinds@[1], word_at(event.payload@, 1), words@[1]));
                match words[1] {
                    AbiWord::Int(v) => I256(v).fits_i32(),
                    _ => true,
                }
            },
            Err(_) => true,
        }
    } else if topic0.same(&mint_topic()) || topic0.same(&burn_topic()) {
        if event.topics.len() < 4 {
            return true;
        }
        I256(topic_to_u256(&event.topics[2])).fits_i32() && I256(
            topic_to_u256(&event.topics[3]),
        ).fits_i32()
    } else if topic0.same(&swap_topic()) {
        if event.topics.len() < 3 || event.payload.len() < 160 {
            return true;
        }
        let kinds = [
            AbiKind::Int(256),
            AbiKind::Int(256),
            AbiKind::Uint(160),
            AbiKind::Uint(128),
            AbiKind::Int(24),
        ];
        match abi_decode(&kinds, event.payload.as_slice()) {
            Ok(words) => {
                assert(crate::abi::word_decodes(kinds@[4], word_at(event.payload@, 4), words@[4]));
                match words[4] {
                    AbiWord::Int(v) => I256(v).fits_i32(),
                    _ => true,
                }
            },
            Err(_) => true,
        }
    } else if topic0.same(&collect_topic()) {
        if event.topics.len() < 4 {
            return true;
        }
        I256(topic_to_u256(&event.topics[2])).fits_i32() && I256(
            topic_to_u256(&event.topics[3]),
        ).fits_i32()
    } else {
        true
    }
}

impl PancakeV3Event {
    /// Reads a log as a V3 event. Ticks are `int24` on chain; a word whose
    /// value lies outside the `i32` range is left out by the precondition
    /// (see `ticks_fit`).
    pub fn try_from(event: &EventEnvelope) -> (r: Result<PancakeV3Event, PancakeV3EventError>)
        requires
            v3_ticks_fit(event@),
        ensures
            v3_parse_result(event@, r),
    {
        if event.topics.len() == 0 {
            return Err(PancakeV3EventError::MissingTopics);
        }
        let topic0 = event.topics[0];
        if topic0.same(&initialize_topic()) {
            parse_initialize(event)
        } else if topic0.same(&mint_topic()) {
            parse_mint(event)
        } else if topic0.same(&burn_topic()) {
            parse_burn(event)
        } else if topic0.same(&swap_topic()) {
            parse_swap(event)
        } else if topic0.same(&collect_topic()) {
            parse_collect(event)
        } else {
            Ok(PancakeV3Event::Unknown)
        }
    }
}

/// Reading a V3 swap log: sender and recipient are the indexed topics, and
/// the payload words give, in the order of the event's signature, the
/// signed amount0 and amount1, the new sqrt price, the liquidity and the
/// tick.
pub proof fn lemma_v3_swap_read(e: EventModel, r: Result<PancakeV3Event, PancakeV3EventError>)
    requires
        v3_parse_result(e, r),
        r matches Ok(PancakeV3Event::Swap { .. }),
    ensures
        r matches Ok(
            PancakeV3Event::Swap { sender, recipient, amount0, amount1, sqrt_price_x96, liquidity, tick },
        ) ==> {
            &&& e.topics.len() >= 3 && e.payload.len() >= 160
            &&& e.topics[0] == swap_topic_spec()
            &&& sender@ == topic_address_spec(e.topics[1])
            &&& recipient@ == topic_address_spec(e.topics[2])
            &&& amount0@ == signed_value(be_value(e.payload.subrange(0, 32)))
            &&& amount1@ == signed_value(be_value(e.payload.subrange(32, 64)))
            &&& sqrt_price_x96@ == be_value(e.payload.subrange(64, 96))
            &&& liquidity@ == be_value(e.payload.subrange(96, 128))
            &&& tick == signed_value(be_value(e.payload.subrange(128, 160)))
        },
{
}

/// Reading a V3 initialize log: the sqrt price and the tick are the two
/// payload words.
pub proof fn lemma_v3_initialize_read(e: EventModel, r: Result<PancakeV3Event, PancakeV3EventError>)
    requires
        v3_parse_result(e, r),
        r matches Ok(PancakeV3Event::Initialize { .. }),
    ensures
        r matches Ok(PancakeV3Event::Initialize { sqrt_price_x96, tick }) ==> {
            &&& e.payload.len() >= 64
            &&& e.topics[0] == initialize_topic_spec()
            &&& sqrt_price_x96@ == be_value(e.payload.subrange(0, 32))
            &&& tick == signed_value(be_value(e.payload.subrange(32, 64)))
        },
{
}

/// Reading a V3 mint log: the owner and the two ticks are the indexed
/// topics; the payload words give the sender, the liquidity added and the
/// two amounts, in the order of the event's signature.
pub proof fn lemma_v3_mint_read(e: EventModel, r: Result<PancakeV3Event, PancakeV3EventError>)
    requires
        v3_parse_result(e, r),
        r matches Ok(PancakeV3Event::Mint { .. }),
    ensures
        r matches Ok(
            PancakeV3Event::Mint { sender, owner, tick_lower, tick_upper, liquidity, amount0, amount1 },
        ) ==> {
            &&& e.topics.len() >= 4 && e.payload.len() >= 128
            &&& e.topics[0] == mint_topic_spec()
            &&& owner@ == topic_address_spec(e.topics[1])
            &&& tick_lower == signed_value(be_value(e.topics[2]))
            &&& tick_upper == signed_value(be_value(e.topics[3]))
            &&& sender@ == e.payload.subrange(12, 32)
            &&& liquidity@ == be_value(e.payload.subrange(32, 64))
            &&& amount0@ == be_value(e.payload.subrange(64, 96))
            &&& amount1@ == be_value(e.payload.subrange(96, 128))
        },
{
    if e.payload.len() >= 128 {
        assert(word_at(e.payload, 0).subrange(12, 32) =~= e.payload.subrange(12, 32));
    }
}

/// Reading a V3 burn log: the owner and the two ticks are the indexed
/// topics; the payload words give the liquidity removed and the two
/// amounts.
pub proof fn lemma_v3_burn_read(e: EventModel, r: Result<PancakeV3Event, PancakeV3EventError>)
    requires
        v3_parse_result(e, r),
        r matches Ok(PancakeV3Event::Burn { .. }),
    ensures
        r matches Ok(PancakeV3Event::Burn { owner, tick_lower, tick_upper, liquidity, amount0, amount1 })
            ==> {
            &&& e.topics.len() >= 4 && e.payload.len() >= 96
            &&& e.topics[0] == burn_topic_spec()
            &&& owner@ == topic_address_spec(e.topics[1])
            &&& tick_lower == signed_value(be_value(e.topics[2]))
            &&& tick_upper == signed_value(be_value(e.topics[3]))
            &&& liquidity@ == be_value(e.payload.subrange(0, 32))
            &&& amount0@ == be_value(e.payload.subrange(32, 64))
            &&& amount1@ == be_value(e.payload.subrange(64, 96))
        },
{
}

/// Reading a V3 collect log: the owner and the two ticks are the indexed
/// topics; the payload words give the recipient and the two amounts.
pub proof fn lemma_v3_collect_read(e: EventModel, r: Result<PancakeV3Event, PancakeV3EventError>)
    requires
        v3_parse_result(e, r),
        r matches Ok(PancakeV3Event::Collect { .. }),
    ensures
        r matches Ok(
            PancakeV3Event::Collect { sender, recipient, tick_lower, tick_upper, amount0, amount1 },
        ) ==> {
            &&& e.topics.len() >= 4 && e.payload.len() >= 96
            &&& e.topics[0] == collect_topic_spec()
            &&& sender@ == topic_address_spec(e.topics[1])
            &&& tick_lower == signed_value(be_value(e.topics[2]))
            &&& tick_upper == signed_value(be_value(e.topics[3]))
            &&& recipient@ == e.payload.subrange(12, 32)
            &&& amount0@ == be_value(e.payload.subrange(32, 64))
            &&& amount1@ == be_value(e.payload.subrange(64, 96))
        },
{
    if e.payload.len() >= 96 {
        assert(word_at(e.payload, 0).subrange(12, 32) =~= e.payload.subrange(12, 32));
    }
}

} // verus!
