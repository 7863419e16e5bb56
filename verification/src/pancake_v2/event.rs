//! PancakeSwap V2 pair and factory events, read from raw logs.
use vstd::prelude::*;
use vstd::string::*;

use crate::abi::{
    abi_decode, be_value, topic, topic_address_spec, topic_spec, topic_to_address, word_at,
    AbiKind, AbiWord,
};
use crate::event::{EventEnvelope, EventModel};
use crate::num::U256;
use crate::types::{Address, H256};

verus! {

pub open spec fn pair_created_topic_spec() -> Seq<u8> {
    topic_spec("PairCreated(address,address,address,uint256)")
}

pub open spec fn mint_topic_spec() -> Seq<u8> {
    topic_spec("Mint(address,uint256,uint256)")
}

pub open spec fn burn_topic_spec() -> Seq<u8> {
    topic_spec("Burn(address,uint256,uint256,address)")
}

pub open spec fn swap_topic_spec() -> Seq<u8> {
    topic_spec("Swap(address,uint256,uint256,uint256,uint256,address)")
}

pub open spec fn sync_topic_spec() -> Seq<u8> {
    topic_spec("Sync(uint112,uint112)")
}

pub fn pair_created_topic() -> (r: H256)
    ensures
        r@ == pair_created_topic_spec(),
{
    topic("PairCreated(address,address,address,uint256)")
}

pub fn mint_topic() -> (r: H256)
    ensures
        r@ == mint_topic_spec(),
{
    topic("Mint(address,uint256,uint256)")
}

pub fn burn_topic() -> (r: H256)
    ensures
        r@ == burn_topic_spec(),
{
    topic("Burn(address,uint256,uint256,address)")
}

pub fn swap_topic() -> (r: H256)
    ensures
        r@ == swap_topic_spec(),
{
    topic("Swap(address,uint256,uint256,uint256,uint256,address)")
}

pub fn sync_topic() -> (r: H256)
    ensures
        r@ == sync_topic_spec(),
{
    topic("Sync(uint112,uint112)")
}

/// The five V2 event topics: pair created, mint, burn, swap, sync.
pub fn event_topics() -> (r: [H256; 5])
    ensures
        r@[0]@ == pair_created_topic_spec(),
        r@[1]@ == mint_topic_spec(),
        r@[2]@ == burn_topic_spec(),
        r@[3]@ == swap_topic_spec(),
        r@[4]@ == sync_topic_spec(),
{
    [pair_created_topic(), mint_topic(), burn_topic(), swap_topic(), sync_topic()]
}

/// A PancakeSwap V2 event.
#[derive(Clone, Copy, Debug, PartialEq, Eq)]
pub enum PancakeV2Event {
    PairCreated {
        factory: Address,
        token0: Address,
        token1: Address,
        pair: Address,
        all_pairs_length: U256,
    },
    Mint { pair: Address, sender: Address, amount0: U256, amount1: U256 },
    Burn { pair: Address, sender: Address, to: Address, amount0: U256, amount1: U256 },
    Swap {
        pair: Address,
        sender: Address,
        to: Address,
        amount0_in: U256,
        amount1_in: U256,
        amount0_out: U256,
        amount1_out: U256,
    },
    Sync { pair: Address, reserve0: U256, reserve1: U256 },
}

/// Why a log is not a V2 event.
#[derive(Debug)]
pub enum PancakeV2EventError {
    MissingTopics,
    Decode(String),
    Unsupported,
}

impl PancakeV2EventError {
    /// The error's message.
    pub fn message(&self) -> (r: String)
        ensures
            r@ == match self {
                PancakeV2EventError::MissingTopics => "缺少事件主题(topic)"@,
                PancakeV2EventError::Decode(m) => "事件数据解析失败: "@ + m@,
                PancakeV2EventError::Unsupported => "不支持的事件类型"@,
            },
    {
        match self {
                PancakeV2EventError::MissingTopics => String::from_str("缺少事件主题(topic)"),
                PancakeV2EventError::Decode(m) => String::from_str("事件数据解析失败: ").concat(m.as_str()),
                PancakeV2EventError::Unsupported => String::from_str("不支持的事件类型"),
        }
    }
}

/// The address in the low 20 bytes of the `i`-th payload word.
pub open spec fn word_address(payload: Seq<u8>, i: int) -> Seq<u8> {
    word_at(payload, i).subrange(12, 32)
}

/// The unsigned value of the `i`-th payload word.
pub open spec fn word_uint(payload: Seq<u8>, i: int) -> nat {
    be_value(word_at(payload, i))
}

pub open spec fn pair_created_result(e: EventModel, r: Result<PancakeV2Event, PancakeV2EventError>) -> bool {
    if e.topics.len() < 3 {
        r matches Err(PancakeV2EventError::MissingTopics)
    } else if e.payload.len() < 64 {
        r matches Err(PancakeV2EventError::Decode(_))
    } else {
        r matches Ok(
            PancakeV2Event::PairCreated { factory, token0, token1, pair, all_pairs_length },
        ) && factory@ == e.address && token0@ == topic_address_spec(e.topics[1]) && token1@
            == topic_address_spec(e.topics[2]) && pair@ == word_address(e.payload, 0)
            && all_pairs_length@ == word_uint(e.payload, 1)
    }
}

pub open spec fn mint_result(e: EventModel, r: Result<PancakeV2Event, PancakeV2EventError>) -> bool {
    if e.topics.len() < 2 {
        r matches Err(PancakeV2EventError::MissingTopics)
    } else if e.payload.len() < 64 {
        r matches Err(PancakeV2EventError::Decode(_))
    } else {
        r matches Ok(PancakeV2Event::Mint { pair, sender, amount0, amount1 }) && pair@ == e.address
            && sender@ == topic_address_spec(e.topics[1]) && amount0@ == word_uint(e.payload, 0)
            && amount1@ == word_uint(e.payload, 1)
    }
}

pub open spec fn burn_result(e: EventModel, r: Result<PancakeV2Event, PancakeV2EventError>) -> bool {
    if e.topics.len() < 3 {
        r matches Err(PancakeV2EventError::MissingTopics)
    } else if e.payload.len() < 64 {
        r matches Err(PancakeV2EventError::Decode(_))
    } else {
        r matches Ok(PancakeV2Event::Burn { pair, sender, to, amount0, amount1 }) && pair@
            == e.address && sender@ == topic_address_spec(e.topics[1]) && to@
            == topic_address_spec(e.topics[2]) && amount0@ == word_uint(e.payload, 0) && amount1@
            == word_uint(e.payload, 1)
    }
}

pub open spec fn swap_result(e: EventModel, r: Result<PancakeV2Event, PancakeV2EventError>) -> bool {
    if e.topics.len() < 3 {
        r matches Err(PancakeV2EventError::MissingTopics)
    } else if e.payload.len() < 128 {
        r matches Err(PancakeV2EventError::Decode(_))
    } else {
        r matches Ok(
            PancakeV2Event::Swap {
                pair,
                sender,
                to,
                amount0_in,
                amount1_in,
                amount0_out,
                amount1_out,
            },
        ) && pair@ == e.address && sender@ == topic_address_spec(e.topics[1]) && to@
            == topic_address_spec(e.topics[2]) && amount0_in@ == word_uint(e.payload, 0)
            && amount1_in@ == word_uint(e.payload, 1) && amount0_out@ == word_uint(e.payload, 2)
            && amount1_out@ == word_uint(e.payload, 3)
    }
}

pub open spec fn sync_result(e: EventModel, r: Result<PancakeV2Event, PancakeV2EventError>) -> bool {
    if e.payload.len() < 64 {
        r matches Err(PancakeV2EventError::Decode(_))
    } else {
        r matches Ok(PancakeV2Event::Sync { pair, reserve0, reserve1 }) && pair@ == e.address
            && reserve0@ == word_uint(e.payload, 0) && reserve1@ == word_uint(e.payload, 1)
    }
}

/// What reading a log as a V2 event gives: the first topic selects the
/// event (pair created, mint, burn, swap, sync, in that order of tests),
/// indexed addresses come from the further topics and the amounts from the
/// payload words.
pub open spec fn v2_parse_result(e: EventModel, r: Result<PancakeV2Event, PancakeV2EventError>) -> bool {
    if e.topics.len() == 0 {
        r matches Err(PancakeV2EventError::MissingTopics)
    } else if e.topics[0] == pair_created_topic_spec() {
        pair_created_result(e, r)
    } else if e.topics[0] == mint_topic_spec() {
        mint_result(e, r)
    } else if e.topics[0] == burn_topic_spec() {
        burn_result(e, r)
    } else if e.topics[0] == swap_topic_spec() {
        swap_result(e, r)
    } else if e.topics[0] == sync_topic_spec() {
        sync_result(e, r)
    } else {
        r matches Err(PancakeV2EventError::Unsupported)
    }
}

fn decode_error(message: String) -> (r: PancakeV2EventError)
    ensures
        r == PancakeV2EventError::Decode(message),
{
    PancakeV2EventError::Decode(message)
}

fn expect_uint(word: &AbiWord) -> (r: Result<U256, PancakeV2EventError>)
    ensures
        word matches AbiWord::Uint(v) ==> r matches Ok(u) && u@ == v@,
{
    match word {
        AbiWord::Uint(v) => Ok(*v),
        _ => Err(decode_error(String::from_str("Uint 参数缺失"))),
    }
}

fn parse_pair_created(event: &EventEnvelope) -> (r: Result<PancakeV2Event, PancakeV2EventError>)
    ensures
        pair_created_result(event@, r),
{
    if event.topics.len() < 3 {
        return Err(PancakeV2EventError::MissingTopics);
    }
    let token0 = topic_to_address(&event.topics[1]);
    let token1 = topic_to_address(&event.topics[2]);
    let kinds = [AbiKind::Address, AbiKind::Uint(256)];
    let decoded = match abi_decode(&kinds, event.payload.as_slice()) {
        Ok(words) => words,
        Err(message) => return Err(decode_error(message)),
    };
    assert(crate::abi::word_decodes(kinds@[0], word_at(event.payload@, 0), decoded@[0]));
    assert(crate::abi::word_decodes(kinds@[1], word_at(event.payload@, 1), decoded@[1]));
    let pair = match decoded[0] {
        AbiWord::Address(a) => a,
        _ => return Err(decode_error(String::from_str("pair address 缺失"))),
    };
    let length = match decoded[1] {
        AbiWord::Uint(v) => v,
        _ => return Err(decode_error(String::from_str("allPairsLength 缺失"))),
    };
    Ok(
        PancakeV2Event::PairCreated {
            factory: event.address,
            token0,
            token1,
            pair,
            all_pairs_length: length,
        },
    )
}

fn parse_mint(event: &EventEnvelope) -> (r: Result<PancakeV2Event, PancakeV2EventError>)
    ensures
        mint_result(event@, r),
{
    if event.topics.len() < 2 {
        return Err(PancakeV2EventError::MissingTopics);
    }
    let sender = topic_to_address(&event.topics[1]);
    let kinds = [AbiKind::Uint(256), AbiKind::Uint(256)];
    let decoded = match abi_decode(&kinds, event.payload.as_slice()) {
        Ok(words) => words,
        Err(message) => return Err(decode_error(message)),
    };
    assert(crate::abi::word_decodes(kinds@[0], word_at(event.payload@, 0), decoded@[0]));
    assert(crate::abi::word_decodes(kinds@[1], word_at(event.payload@, 1), decoded@[1]));
    let amount0 = expect_uint(&decoded[0])?;
    let amount1 = expect_uint(&decoded[1])?;
    Ok(PancakeV2Event::Mint { pair: event.address, sender, amount0, amount1 })
}

fn parse_burn(event: &EventEnvelope) -> (r: Result<PancakeV2Event, PancakeV2EventError>)
    ensures
        burn_result(event@, r),
{
    if event.topics.len() < 3 {
        return Err(PancakeV2EventError::MissingTopics);
    }
    let sender = topic_to_address(&event.topics[1]);
    let to = topic_to_address(&event.topics[2]);
    let kinds = [AbiKind::Uint(256), AbiKind::Uint(256)];
    let decoded = match abi_decode(&kinds, event.payload.as_slice()) {
        Ok(words) => words,
        Err(message) => return Err(decode_error(message)),
    };
    assert(crate::abi::word_decodes(kinds@[0], word_at(event.payload@, 0), decoded@[0]));
    assert(crate::abi::word_decodes(kinds@[1], word_at(event.payload@, 1), decoded@[1]));
    let amount0 = expect_uint(&decoded[0])?;
    let amount1 = expect_uint(&decoded[1])?;
    Ok(PancakeV2Event::Burn { pair: event.address, sender, to, amount0, amount1 })
}

fn parse_swap(event: &EventEnvelope) -> (r: Result<PancakeV2Event, PancakeV2EventError>)
    ensures
        swap_result(event@, r),
{
    if event.topics.len() < 3 {
        return Err(PancakeV2EventError::MissingTopics);
    }
    let sender = topic_to_address(&event.topics[1]);
    let to = topic_to_address(&event.topics[2]);
    let kinds = [AbiKind::Uint(256), AbiKind::Uint(256), AbiKind::Uint(256), AbiKind::Uint(256)];
    let decoded = match abi_decode(&kinds, event.payload.as_slice()) {
        Ok(words) => words,
        Err(message) => return Err(decode_error(message)),
    };
    assert(crate::abi::word_decodes(kinds@[0], word_at(event.payload@, 0), decoded@[0]));
    assert(crate::abi::word_decodes(kinds@[1], word_at(event.payload@, 1), decoded@[1]));
    assert(crate::abi::word_decodes(kinds@[2], word_at(event.payload@, 2), decoded@[2]));
    assert(crate::abi::word_decodes(kinds@[3], word_at(event.payload@, 3), decoded@[3]));
    let amount0_in = expect_uint(&decoded[0])?;
    let amount1_in = expect_uint(&decoded[1])?;
    let amount0_out = expect_uint(&decoded[2])?;
    let amount1_out = expect_uint(&decoded[3])?;
    Ok(
        PancakeV2Event::Swap {
            pair: event.address,
            sender,
            to,
            amount0_in,
            amount1_in,
            amount0_out,
            amount1_out,
        },
    )
}

fn parse_sync(event: &EventEnvelope) -> (r: Result<PancakeV2Event, PancakeV2EventError>)
    ensures
        sync_result(event@, r),
{
    let kinds = [AbiKind::Uint(112), AbiKind::Uint(112)];
    let decoded = match abi_decode(&kinds, event.payload.as_slice()) {
        Ok(words) => words,
        Err(message) => return Err(decode_error(message)),
    };
    assert(crate::abi::word_decodes(kinds@[0], word_at(event.payload@, 0), decoded@[0]));
    assert(crate::abi::word_decodes(kinds@[1], word_at(event.payload@, 1), decoded@[1]));
    let reserve0 = expect_uint(&decoded[0])?;
    let reserve1 = expect_uint(&decoded[1])?;
    Ok(PancakeV2Event::Sync { pair: event.address, reserve0, reserve1 })
}

impl PancakeV2Event {
    /// Reads a log as a V2 event.
    pub fn try_from(event: &EventEnvelope) -> (r: Result<PancakeV2Event, PancakeV2EventError>)
        ensures
            v2_parse_result(event@, r),
    {
        if event.topics.len() == 0 {
            return Err(PancakeV2EventError::MissingTopics);
        }
        let topic0 = event.topics[0];
        if topic0.same(&pair_created_topic()) {
            parse_pair_created(event)
        } else if topic0.same(&mint_topic()) {
            parse_mint(event)
        } else if topic0.same(&burn_topic()) {
            parse_burn(event)
        } else if topic0.same(&swap_topic()) {
            parse_swap(event)
        } else if topic0.same(&sync_topic()) {
            parse_sync(event)
        } else {
            Err(PancakeV2EventError::Unsupported)
        }
    }
}

/// Reading a V2 swap log: the pair is the log's address, sender and
/// recipient are the indexed topics, and the four amounts are the four
/// payload words in the order of the event's signature: amount0In,
/// amount1In, amount0Out, amount1Out.
pub proof fn lemma_v2_swap_read(e: EventModel, r: Result<PancakeV2Event, PancakeV2EventError>)
    requires
        v2_parse_result(e, r),
        r matches Ok(PancakeV2Event::Swap { .. }),
    ensures
        r matches Ok(
            PancakeV2Event::Swap {
                pair,
                sender,
                to,
                amount0_in,
                amount1_in,
                amount0_out,
                amount1_out,
            },
        ) ==> {
            &&& e.topics.len() >= 3 && e.payload.len() >= 128
            &&& e.topics[0] == swap_topic_spec()
            &&& pair@ == e.address
            &&& sender@ == topic_address_spec(e.topics[1])
            &&& to@ == topic_address_spec(e.topics[2])
            &&& amount0_in@ == be_value(e.payload.subrange(0, 32))
            &&& amount1_in@ == be_value(e.payload.subrange(32, 64))
            &&& amount0_out@ == be_value(e.payload.subrange(64, 96))
            &&& amount1_out@ == be_value(e.payload.subrange(96, 128))
        },
{
}

/// Reading a V2 mint log: the pair is the log's address, the sender the
/// indexed topic, and amount0 and amount1 the first two payload words.
pub proof fn lemma_v2_mint_read(e: EventModel, r: Result<PancakeV2Event, PancakeV2EventError>)
    requires
        v2_parse_result(e, r),
        r matches Ok(PancakeV2Event::Mint { .. }),
    ensures
        r matches Ok(PancakeV2Event::Mint { pair, sender, amount0, amount1 }) ==> {
            &&& e.topics.len() >= 2 && e.payload.len() >= 64
            &&& e.topics[0] == mint_topic_spec()
            &&& pair@ == e.address
            &&& sender@ == topic_address_spec(e.topics[1])
            &&& amount0@ == be_value(e.payload.subrange(0, 32))
            &&& amount1@ == be_value(e.payload.subrange(32, 64))
        },
{
}

/// Reading a V2 burn log: the pair is the log's address, sender and
/// recipient the indexed topics, and amount0 and amount1 the first two
/// payload words.
pub proof fn lemma_v2_burn_read(e: EventModel, r: Result<PancakeV2Event, PancakeV2EventError>)
    requires
        v2_parse_result(e, r),
        r matches Ok(PancakeV2Event::Burn { .. }),
    ensures
        r matches Ok(PancakeV2Event::Burn { pair, sender, to, amount0, amount1 }) ==> {
            &&& e.topics.len() >= 3 && e.payload.len() >= 64
            &&& e.topics[0] == burn_topic_spec()
            &&& pair@ == e.address
            &&& sender@ == topic_address_spec(e.topics[1])
            &&& to@ == topic_address_spec(e.topics[2])
            &&& amount0@ == be_value(e.payload.subrange(0, 32))
            &&& amount1@ == be_value(e.payload.subrange(32, 64))
        },
{
}

/// Reading a V2 sync log: the pair is the log's address and reserve0 and
/// reserve1 the first two payload words.
pub proof fn lemma_v2_sync_read(e: EventModel, r: Result<PancakeV2Event, PancakeV2EventError>)
    requires
        v2_parse_result(e, r),
        r matches Ok(PancakeV2Event::Sync { .. }),
    ensures
        r matches Ok(PancakeV2Event::Sync { pair, reserve0, reserve1 }) ==> {
            &&& e.payload.len() >= 64
            &&& e.topics[0] == sync_topic_spec()
            &&& pair@ == e.address
            &&& reserve0@ == be_value(e.payload.subrange(0, 32))
            &&& reserve1@ == be_value(e.payload.subrange(32, 64))
        },
{
}

/// Reading a V2 pair-created log: the factory is the log's address, the two
/// tokens the indexed topics, the pair the first payload word (as an
/// address) and the pair count the second.
pub proof fn lemma_v2_pair_created_read(e: EventModel, r: Result<PancakeV2Event, PancakeV2EventError>)
    requires
        v2_parse_result(e, r),
        r matches Ok(PancakeV2Event::PairCreated { .. }),
    ensures
        r matches Ok(PancakeV2Event::PairCreated { factory, token0, token1, pair, all_pairs_length })
            ==> {
            &&& e.topics.len() >= 3 && e.payload.len() >= 64
            &&& e.topics[0] == pair_created_topic_spec()
            &&& factory@ == e.address
            &&& token0@ == topic_address_spec(e.topics[1])
            &&& token1@ == topic_address_spec(e.topics[2])
            &&& pair@ == e.payload.subrange(12, 32)
            &&& all_pairs_length@ == be_value(e.payload.subrange(32, 64))
        },
{
    if e.payload.len() >= 64 {
        assert(word_at(e.payload, 0).subrange(12, 32) =~= e.payload.subrange(12, 32));
    }
}

} // verus!
