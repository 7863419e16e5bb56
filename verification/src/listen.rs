//! The decisions of the listening service: the sample event stream, which
//! handler a pool belongs to, when a pool's state must be fetched, and what
//! the log subscription asks for.
use vstd::prelude::*;
use vstd::string::*;

use crate::abi::{
    abi_encode, address_bytes, address_parses, address_to_topic, address_topic_spec, be_bytes,
    h256_from_low_u64, parse_address, AbiValue,
};
use crate::event::{EventEnvelope, EventKind, EventListenerError, EventModel};
use crate::num::U256;
use crate::pancake_v2::event::{
    mint_topic, mint_topic_spec, pair_created_topic, pair_created_topic_spec, swap_topic,
    swap_topic_spec, sync_topic, sync_topic_spec,
};
use crate::assoc::AssocList;
use crate::bootstrap::{V2BootstrapPool, V3BootstrapPool};
use crate::order::{address_seq, hash_seq, insert_address, insert_hash, strictly_sorted};
use crate::pancake_v2::event::burn_topic;
use crate::pancake_v2::event::burn_topic_spec;
use crate::pancake_v3::event as v3_event;
use crate::repository::{lookup, InMemoryPoolRepository, PoolRepository};
use crate::state::PoolSnapshot;
use crate::types::{
    Asset, ChainNamespace, ChainNamespaceModel, PoolIdModel, PoolIdentifier, PoolType,
    PoolTypeModel,
};
use crate::utils::{pool_type_label, short_label};
use crate::types::{Address, H256};

verus! {

/// The 32-byte word of an address.
pub open spec fn address_word(a: Seq<u8>) -> Seq<u8> {
    Seq::new(12, |i: int| 0u8) + a
}

/// The 32-byte word of an unsigned integer.
pub open spec fn uint_word(n: nat) -> Seq<u8> {
    be_bytes(n, 32)
}

/// The transaction hash with `n` in its low eight bytes.
pub open spec fn low_hash(n: nat) -> Seq<u8> {
    Seq::new(24, |i: int| 0u8) + be_bytes(n, 8)
}

/// A log of the sample stream: no block hash or time.
pub open spec fn sample_event(
    kind: EventKind,
    block: nat,
    tx: nat,
    log_index: u64,
    address: Seq<u8>,
    topics: Seq<Seq<u8>>,
    payload: Seq<u8>,
) -> EventModel {
    EventModel {
        kind,
        block_number: block as u64,
        block_hash: None,
        block_timestamp: None,
        transaction_hash: low_hash(tx),
        log_index,
        address,
        topics,
        payload,
    }
}

/// The addresses of the sample stream: factory, pair, the two tokens, the
/// sender and the recipient.
pub struct SampleAddresses {
    pub factory: Seq<u8>,
    pub pair: Seq<u8>,
    pub token0: Seq<u8>,
    pub token1: Seq<u8>,
    pub sender: Seq<u8>,
    pub to: Seq<u8>,
}

pub open spec fn sample_texts() -> Seq<Seq<char>> {
    seq![
        "0xcA143Ce32Fe78f1f7019d7d551a6402fC5350c73"@,
        "0x000000000000000000000000000000000000abcd"@,
        "0x0000000000000000000000000000000000000010"@,
        "0x0000000000000000000000000000000000000020"@,
        "0x0000000000000000000000000000000000001234"@,
        "0x0000000000000000000000000000000000005678"@,
    ]
}

/// All six address texts read as addresses.
pub open spec fn sample_texts_parse() -> bool {
    forall|i: int| 0 <= i < 6 ==> address_parses(#[trigger] sample_texts()[i])
}

pub open spec fn sample_addresses() -> SampleAddresses {
    SampleAddresses {
        factory: address_bytes(sample_texts()[0]),
        pair: address_bytes(sample_texts()[1]),
        token0: address_bytes(sample_texts()[2]),
        token1: address_bytes(sample_texts()[3]),
        sender: address_bytes(sample_texts()[4]),
        to: address_bytes(sample_texts()[5]),
    }
}

/// The swap of round `i`: 0.1 of token0 in, 0.045 of token1 out.
pub open spec fn sample_swap(a: SampleAddresses, i: nat) -> EventModel {
    sample_event(
        EventKind::Swap,
        3 + i,
        10 + i,
        0,
        a.pair,
        seq![swap_topic_spec(), address_topic_spec(a.sender), address_topic_spec(a.to)],
        uint_word(100_000_000_000_000_000) + uint_word(0) + uint_word(0) + uint_word(
            45_000_000_000_000_000,
        ),
    )
}

/// The sync that follows the swap of round `i`.
pub open spec fn sample_sync(a: SampleAddresses, i: nat) -> EventModel {
    sample_event(
        EventKind::Sync,
        3 + i,
        10 + i,
        1,
        a.pair,
        seq![sync_topic_spec()],
        uint_word(1_100_000_000_000_000_000) + uint_word(455_000_000_000_000_000),
    )
}

/// The sample stream: the pair's creation, a mint and a sync, then `n`
/// rounds of a swap and a sync.
pub open spec fn sample_stream(a: SampleAddresses, n: nat) -> Seq<EventModel> {
    seq![
        sample_event(
            EventKind::PairCreated,
            1,
            1,
            0,
            a.factory,
            seq![pair_created_topic_spec(), address_topic_spec(a.token0), address_topic_spec(a.token1)],
            address_word(a.pair) + uint_word(1),
        ),
        sample_event(
            EventKind::Mint,
            2,
            2,
            0,
            a.pair,
            seq![mint_topic_spec(), address_topic_spec(a.sender)],
            uint_word(1_000_000_000_000_000_000) + uint_word(500_000_000_000_000_000),
        ),
        sample_event(
            EventKind::Sync,
            2,
            2,
            1,
            a.pair,
            seq![sync_topic_spec()],
            uint_word(1_000_000_000_000_000_000) + uint_word(500_000_000_000_000_000),
        ),
    ] + Seq::new(
        2 * n,
        |k: int|
            if k % 2 == 0 {
                sample_swap(a, (k / 2) as nat)
            } else {
                sample_sync(a, (k / 2) as nat)
            },
    )
}

pub open spec fn event_models(v: Seq<EventEnvelope>) -> Seq<EventModel> {
    v.map_values(|e: EventEnvelope| e@)
}

fn sample_event_value(
    kind: EventKind,
    block: u64,
    tx: u64,
    log_index: u64,
    address: Address,
    topics: Vec<H256>,
    payload: Vec<u8>,
) -> (r: EventEnvelope)
    ensures
        r@ == sample_event(
            kind,
            block as nat,
            tx as nat,
            log_index,
            address@,
            topics@.map_values(|t: H256| t@),
            payload@,
        ),
{
    EventEnvelope {
        kind,
        block_number: block,
        block_hash: None,
        block_timestamp: None,
        transaction_hash: h256_from_low_u64(tx),
        log_index,
        address,
        topics,
        payload,
    }
}

fn encode2(a: AbiValue, b: AbiValue) -> (r: Vec<u8>)
    ensures
        r@ == crate::abi::value_word(a) + crate::abi::value_word(b),
{
    let mut v: Vec<AbiValue> = Vec::new();
    v.push(a);
    v.push(b);
    proof {
        reveal_with_fuel(crate::abi::encoded_values, 3);
        assert(v@.drop_last().drop_last() =~= Seq::<AbiValue>::empty());
        assert(crate::abi::encoded_values(v@) =~= crate::abi::value_word(a) + crate::abi::value_word(b));
    }
    abi_encode(v.as_slice())
}

fn encode4(a: AbiValue, b: AbiValue, c: AbiValue, d: AbiValue) -> (r: Vec<u8>)
    ensures
        r@ == crate::abi::value_word(a) + crate::abi::value_word(b) + crate::abi::value_word(c)
            + crate::abi::value_word(d),
{
    let mut v: Vec<AbiValue> = Vec::new();
    v.push(a);
    v.push(b);
    v.push(c);
    v.push(d);
    proof {
        reveal_with_fuel(crate::abi::encoded_values, 5);
        assert(v@.drop_last().drop_last().drop_last().drop_last() =~= Seq::<AbiValue>::empty());
        assert(crate::abi::encoded_values(v@) =~= crate::abi::value_word(a) + crate::abi::value_word(b)
            + crate::abi::value_word(c) + crate::abi::value_word(d));
    }
    abi_encode(v.as_slice())
}

fn topics1(a: H256) -> (r: Vec<H256>)
    ensures
        r@.map_values(|t: H256| t@) == seq![a@],
{
    let mut v: Vec<H256> = Vec::new();
    v.push(a);
    assert(v@.map_values(|t: H256| t@) =~= seq![a@]);
    v
}

fn topics2(a: H256, b: H256) -> (r: Vec<H256>)
    ensures
        r@.map_values(|t: H256| t@) == seq![a@, b@],
{
    let mut v: Vec<H256> = Vec::new();
    v.push(a);
    v.push(b);
    assert(v@.map_values(|t: H256| t@) =~= seq![a@, b@]);
    v
}

fn topics3(a: H256, b: H256, c: H256) -> (r: Vec<H256>)
    ensures
        r@.map_values(|t: H256| t@) == seq![a@, b@, c@],
{
    let mut v: Vec<H256> = Vec::new();
    v.push(a);
    v.push(b);
    v.push(c);
    assert(v@.map_values(|t: H256| t@) =~= seq![a@, b@, c@]);
    v
}

/// The sample event stream of a PancakeSwap V2 pair; the six address
/// texts must read as addresses.
pub fn build_mock_events(swap_events: u64) -> (r: Result<Vec<EventEnvelope>, String>)
    requires
        swap_events <= u64::MAX - 10,
    ensures
        r is Ok <==> sample_texts_parse(),
        r matches Ok(v) ==> event_models(v@) == sample_stream(sample_addresses(), swap_events as nat),
{
    let factory = match parse_address("0xcA143Ce32Fe78f1f7019d7d551a6402fC5350c73") {
        Ok(a) => a,
        Err(m) => {
            proof {
                assert(!address_parses(sample_texts()[0]));
            }
            return Err(m);
        },
    };
    let pair = match parse_address("0x000000000000000000000000000000000000abcd") {
        Ok(a) => a,
        Err(m) => {
            proof {
                assert(!address_parses(sample_texts()[1]));
            }
            return Err(m);
        },
    };
    let token0 = match parse_address("0x0000000000000000000000000000000000000010") {
        Ok(a) => a,
        Err(m) => {
            proof {
                assert(!address_parses(sample_texts()[2]));
            }
            return Err(m);
        },
    };
    let token1 = match parse_address("0x0000000000000000000000000000000000000020") {
        Ok(a) => a,
        Err(m) => {
            proof {
                assert(!address_parses(sample_texts()[3]));
            }
            return Err(m);
        },
    };
    let sender = match parse_address("0x0000000000000000000000000000000000001234") {
        Ok(a) => a,
        Err(m) => {
            proof {
                assert(!address_parses(sample_texts()[4]));
            }
            return Err(m);
        },
    };
    let to = match parse_address("0x0000000000000000000000000000000000005678") {
        Ok(a) => a,
        Err(m) => {
            proof {
                assert(!address_parses(sample_texts()[5]));
            }
            return Err(m);
        },
    };
    let ghost a = sample_addresses();
    proof {
        assert(sample_texts_parse()) by {
            assert forall|i: int| 0 <= i < 6 implies address_parses(#[trigger] sample_texts()[i]) by {
                if i == 0 {} else if i == 1 {} else if i == 2 {} else if i == 3 {} else if i == 4 {} else {}
            }
        }
        assert(factory@ == a.factory && pair@ == a.pair && token0@ == a.token0 && token1@ == a.token1
            && sender@ == a.sender && to@ == a.to);
    }
    let mut events: Vec<EventEnvelope> = Vec::new();
    events.push(
        sample_event_value(
            EventKind::PairCreated,
            1,
            1,
            0,
            factory,
            topics3(pair_created_topic(), address_to_topic(token0), address_to_topic(token1)),
            encode2(AbiValue::Address(pair), AbiValue::Uint(U256::from_u64(1))),
        ),
    );
    events.push(
        sample_event_value(
            EventKind::Mint,
            2,
            2,
            0,
            pair,
            topics2(mint_topic(), address_to_topic(sender)),
            encode2(
                AbiValue::Uint(U256::from_u128(1_000_000_000_000_000_000)),
                AbiValue::Uint(U256::from_u128(500_000_000_000_000_000)),
            ),
        ),
    );
    events.push(
        sample_event_value(
            EventKind::Sync,
            2,
            2,
            1,
            pair,
            topics1(sync_topic()),
            encode2(
                AbiValue::Uint(U256::from_u128(1_000_000_000_000_000_000)),
                AbiValue::Uint(U256::from_u128(500_000_000_000_000_000)),
            ),
        ),
    );
    let ghost head = event_models(events@);
    proof {
        assert(head =~= sample_stream(a, 0));
    }
    let mut i: u64 = 0;
    while i < swap_events
        invariant
            i <= swap_events,
            swap_events <= u64::MAX - 10,
            a == sample_addresses(),
            pair@ == a.pair,
            sender@ == a.sender,
            to@ == a.to,
            event_models(events@) == sample_stream(a, i as nat),
        decreases swap_events - i,
    {
        let ghost before = event_models(events@);
        let ghost v0 = events@;
        events.push(
            sample_event_value(
                EventKind::Swap,
                3 + i,
                10 + i,
                0,
                pair,
                topics3(swap_topic(), address_to_topic(sender), address_to_topic(to)),
                encode4(
                    AbiValue::Uint(U256::from_u128(100_000_000_000_000_000)),
                    AbiValue::Uint(U256::zero()),
                    AbiValue::Uint(U256::zero()),
                    AbiValue::Uint(U256::from_u128(45_000_000_000_000_000)),
                ),
            ),
        );
        events.push(
            sample_event_value(
                EventKind::Sync,
                3 + i,
                10 + i,
                1,
                pair,
                topics1(sync_topic()),
                encode2(
                    AbiValue::Uint(U256::from_u128(1_100_000_000_000_000_000)),
                    AbiValue::Uint(U256::from_u128(455_000_000_000_000_000)),
                ),
            ),
        );
        proof {
            let after = event_models(events@);
            let want = sample_stream(a, (i + 1) as nat);
            assert(events@.len() == v0.len() + 2);
            assert(after.len() == before.len() + 2);
            assert(after[before.len() as int] == sample_swap(a, i as nat));
            assert(after[before.len() as int + 1] == sample_sync(a, i as nat));
            assert(after.len() == want.len());
            assert forall|k: int| 0 <= k < after.len() implies after[k] == want[k] by {
                if k < before.len() {
                    assert(after[k] == before[k]);
                }
            }
            assert(after =~= want);
        }
        i = i + 1;
    }
    Ok(events)
}


/// What the log subscription asks for: the pools' addresses and the event
/// topics (each sorted, without repeats), the kind of each topic, and a
/// label for each pool.
#[derive(Debug)]
pub struct SubscriptionMetadata {
    pub addresses: Vec<Address>,
    pub topics: Vec<H256>,
    pub topic_kinds: AssocList<H256, EventKind>,
    pub pool_labels: AssocList<Address, String>,
}

/// The kind of each subscribed topic, in the order they are set: the V2
/// events, then the V3 ones (a V3 initialize counts as a sync).
pub open spec fn topic_kind_entries() -> Seq<(Seq<u8>, EventKind)> {
    seq![
        (pair_created_topic_spec(), EventKind::PairCreated),
        (mint_topic_spec(), EventKind::Mint),
        (burn_topic_spec(), EventKind::Burn),
        (swap_topic_spec(), EventKind::Swap),
        (sync_topic_spec(), EventKind::Sync),
        (v3_event::mint_topic_spec(), EventKind::Mint),
        (v3_event::burn_topic_spec(), EventKind::Burn),
        (v3_event::swap_topic_spec(), EventKind::Swap),
        (v3_event::initialize_topic_spec(), EventKind::Sync),
        (v3_event::collect_topic_spec(), EventKind::Collect),
    ]
}

/// A map built by setting the entries in order.
pub open spec fn map_of<K, V>(entries: Seq<(K, V)>) -> Map<K, V>
    decreases entries.len(),
{
    if entries.len() == 0 {
        Map::empty()
    } else {
        map_of(entries.drop_last()).insert(entries.last().0, entries.last().1)
    }
}

/// Labels set in order; a later one replaces an earlier one.
pub open spec fn set_labels(m: Map<Seq<u8>, Seq<char>>, addrs: Seq<Seq<u8>>, label: Seq<char>) -> Map<
    Seq<u8>,
    Seq<char>,
>
    decreases addrs.len(),
{
    if addrs.len() == 0 {
        m
    } else {
        set_labels(m, addrs.drop_last(), label).insert(addrs.last(), label)
    }
}

/// Labels set in order where a pool has none yet.
pub open spec fn default_labels(m: Map<Seq<u8>, Seq<char>>, entries: Seq<(Seq<u8>, Seq<char>)>) -> Map<
    Seq<u8>,
    Seq<char>,
>
    decreases entries.len(),
{
    if entries.len() == 0 {
        m
    } else {
        let prev = default_labels(m, entries.drop_last());
        if prev.contains_key(entries.last().0) {
            prev
        } else {
            prev.insert(entries.last().0, entries.last().1)
        }
    }
}

pub open spec fn v2_pool_addresses(v: Seq<V2BootstrapPool>) -> Seq<Seq<u8>> {
    v.map_values(|p: V2BootstrapPool| p.pool@)
}

pub open spec fn v3_pool_addresses(v: Seq<V3BootstrapPool>) -> Seq<Seq<u8>> {
    v.map_values(|p: V3BootstrapPool| p.pool@)
}

/// Each stored pool's address and short type label.
pub open spec fn snapshot_labels(v: Seq<PoolSnapshot>) -> Seq<(Seq<u8>, Seq<char>)> {
    v.map_values(|s: PoolSnapshot| (s@.id.address, short_label(s@.id.pool_type)))
}

/// The labels of the subscribed pools: bootstrap V2 pools `pancake_v2`, then
/// V3 pools `pancake_v3`, then stored pools that have no label yet by their
/// type.
pub open spec fn pool_label_map(v2: Seq<V2BootstrapPool>, v3: Seq<V3BootstrapPool>, snaps: Seq<PoolSnapshot>) -> Map<
    Seq<u8>,
    Seq<char>,
> {
    default_labels(
        set_labels(
            set_labels(Map::empty(), v2_pool_addresses(v2), "pancake_v2"@),
            v3_pool_addresses(v3),
            "pancake_v3"@,
        ),
        snapshot_labels(snaps),
    )
}

pub open spec fn label_views(m: Map<Seq<u8>, String>) -> Map<Seq<u8>, Seq<char>> {
    m.map_values(|s: String| s@)
}

fn add_labels(labels: &mut AssocList<Address, String>, addrs: &Vec<Address>, label: &str)
    requires
        old(labels).wf(),
    ensures
        final(labels).wf(),
        label_views(final(labels).map()) == set_labels(
            label_views(old(labels).map()),
            address_seq(addrs@),
            label@,
        ),
{
    let mut i: usize = 0;
    proof {
        assert(address_seq(addrs@).subrange(0, 0) =~= Seq::<Seq<u8>>::empty());
    }
    while i < addrs.len()
        invariant
            i <= addrs@.len(),
            labels.wf(),
            label_views(labels.map()) == set_labels(
                label_views(old(labels).map()),
                address_seq(addrs@).subrange(0, i as int),
                label@,
            ),
        decreases addrs@.len() - i,
    {
        let ghost before = label_views(labels.map());
        labels.insert(addrs[i], String::from_str(label));
        proof {
            let sub = address_seq(addrs@).subrange(0, i + 1);
            assert(sub.drop_last() =~= address_seq(addrs@).subrange(0, i as int));
            assert(sub.last() == addrs@[i as int]@);
            assert(label_views(labels.map()) =~= before.insert(addrs@[i as int]@, label@));
        }
        i = i + 1;
    }
    proof {
        assert(address_seq(addrs@).subrange(0, addrs@.len() as int) =~= address_seq(addrs@));
    }
}

/// The subscription's addresses, topics, topic kinds and pool labels, from
/// the bootstrap pools and the stored snapshots.
pub fn build_subscription_metadata(
    snapshots: &Vec<PoolSnapshot>,
    v2_bootstrap: &Vec<V2BootstrapPool>,
    v3_bootstrap: &Vec<V3BootstrapPool>,
) -> (r: SubscriptionMetadata)
    ensures
        r.topic_kinds.wf(),
        r.topic_kinds.map() == map_of(topic_kind_entries()),
        strictly_sorted(hash_seq(r.topics@)),
        hash_seq(r.topics@).to_set() == map_of(topic_kind_entries()).dom(),
        strictly_sorted(address_seq(r.addresses@)),
        address_seq(r.addresses@).to_set() == v2_pool_addresses(v2_bootstrap@).to_set() + v3_pool_addresses(
            v3_bootstrap@,
        ).to_set() + snapshot_labels(snapshots@).map_values(|e: (Seq<u8>, Seq<char>)| e.0).to_set(),
        r.pool_labels.wf(),
        label_views(r.pool_labels.map()) == pool_label_map(v2_bootstrap@, v3_bootstrap@, snapshots@),
{
    let mut topic_kinds: AssocList<H256, EventKind> = AssocList::new();
    let mut topics: Vec<H256> = Vec::new();
    let entries: [(H256, EventKind); 10] = [
        (pair_created_topic(), EventKind::PairCreated),
        (mint_topic(), EventKind::Mint),
        (burn_topic(), EventKind::Burn),
        (swap_topic(), EventKind::Swap),
        (sync_topic(), EventKind::Sync),
        (v3_event::mint_topic(), EventKind::Mint),
        (v3_event::burn_topic(), EventKind::Burn),
        (v3_event::swap_topic(), EventKind::Swap),
        (v3_event::initialize_topic(), EventKind::Sync),
        (v3_event::collect_topic(), EventKind::Collect),
    ];
    let ghost want = topic_kind_entries();
    proof {
        assert forall|k: int| 0 <= k < 10 implies #[trigger] entries@[k].0@ == want[k].0 && entries@[k].1
            == want[k].1 by {}
        assert(want.subrange(0, 0) =~= Seq::<(Seq<u8>, EventKind)>::empty());
        assert(hash_seq(topics@).to_set() =~= Set::<Seq<u8>>::empty());
        assert(strictly_sorted(hash_seq(topics@)));
    }
    let mut k: usize = 0;
    while k < 10
        invariant
            k <= 10,
            want == topic_kind_entries(),
            forall|j: int| 0 <= j < 10 ==> #[trigger] entries@[j].0@ == want[j].0 && entries@[j].1
                == want[j].1,
            topic_kinds.wf(),
            topic_kinds.map() == map_of(want.subrange(0, k as int)),
            strictly_sorted(hash_seq(topics@)),
            hash_seq(topics@).to_set() == map_of(want.subrange(0, k as int)).dom(),
        decreases 10 - k,
    {
        let (topic, kind) = entries[k];
        topic_kinds.insert(topic, kind);
        insert_hash(&mut topics, topic);
        proof {
            let sub = want.subrange(0, k + 1);
            assert(sub.drop_last() =~= want.subrange(0, k as int));
            assert(sub.last() == want[k as int]);
            assert(map_of(sub).dom() =~= map_of(want.subrange(0, k as int)).dom().insert(topic@));
        }
        k = k + 1;
    }
    proof {
        assert(want.subrange(0, 10) =~= want);
    }
    let mut addresses: Vec<Address> = Vec::new();
    let mut labels: AssocList<Address, String> = AssocList::new();
    let mut v2_addrs: Vec<Address> = Vec::new();
    let mut i: usize = 0;
    while i < v2_bootstrap.len()
        invariant
            i <= v2_bootstrap@.len(),
            address_seq(v2_addrs@) == v2_pool_addresses(v2_bootstrap@).subrange(0, i as int),
        decreases v2_bootstrap@.len() - i,
    {
        let ghost before = address_seq(v2_addrs@);
        v2_addrs.push(v2_bootstrap[i].pool);
        assert(address_seq(v2_addrs@) =~= before.push(v2_bootstrap@[i as int].pool@));
        assert(v2_pool_addresses(v2_bootstrap@).subrange(0, i + 1) =~= v2_pool_addresses(v2_bootstrap@).subrange(
            0,
            i as int,
        ).push(v2_bootstrap@[i as int].pool@));
        i = i + 1;
    }
    let mut v3_addrs: Vec<Address> = Vec::new();
    let mut i: usize = 0;
    while i < v3_bootstrap.len()
        invariant
            i <= v3_bootstrap@.len(),
            address_seq(v3_addrs@) == v3_pool_addresses(v3_bootstrap@).subrange(0, i as int),
        decreases v3_bootstrap@.len() - i,
    {
        let ghost before = address_seq(v3_addrs@);
        v3_addrs.push(v3_bootstrap[i].pool);
        assert(address_seq(v3_addrs@) =~= before.push(v3_bootstrap@[i as int].pool@));
        assert(v3_pool_addresses(v3_bootstrap@).subrange(0, i + 1) =~= v3_pool_addresses(v3_bootstrap@).subrange(
            0,
            i as int,
        ).push(v3_bootstrap@[i as int].pool@));
        i = i + 1;
    }
    proof {
        assert(address_seq(v2_addrs@) =~= v2_pool_addresses(v2_bootstrap@));
        assert(address_seq(v3_addrs@) =~= v3_pool_addresses(v3_bootstrap@));
        assert(label_views(labels.map()) =~= Map::<Seq<u8>, Seq<char>>::empty());
    }
    add_labels(&mut labels, &v2_addrs, "pancake_v2");
    add_labels(&mut labels, &v3_addrs, "pancake_v3");
    let mut all: Vec<Address> = Vec::new();
    all.append(&mut v2_addrs);
    all.append(&mut v3_addrs);
    let ghost base = label_views(labels.map());
    let ghost snap_entries = snapshot_labels(snapshots@);
    let mut j: usize = 0;
    proof {
        assert(snap_entries.subrange(0, 0) =~= Seq::<(Seq<u8>, Seq<char>)>::empty());
    }
    while j < snapshots.len()
        invariant
            j <= snapshots@.len(),
            snap_entries == snapshot_labels(snapshots@),
            labels.wf(),
            label_views(labels.map()) == default_labels(base, snap_entries.subrange(0, j as int)),
            address_seq(all@) == v2_pool_addresses(v2_bootstrap@) + v3_pool_addresses(v3_bootstrap@)
                + snap_entries.subrange(0, j as int).map_values(|e: (Seq<u8>, Seq<char>)| e.0),
        decreases snapshots@.len() - j,
    {
        let address = snapshots[j].id.address;
        let ghost before = label_views(labels.map());
        let ghost all_before = address_seq(all@);
        all.push(address);
        if labels.find(&address).is_none() {
            let label = pool_type_label(&snapshots[j].id.pool_type);
            labels.insert(address, String::from_str(label));
            proof {
                assert(label_views(labels.map()) =~= before.insert(address@, label@));
            }
        }
        proof {
            let sub = snap_entries.subrange(0, j + 1);
            assert(sub.drop_last() =~= snap_entries.subrange(0, j as int));
            assert(sub.last() == (address@, short_label(snapshots@[j as int]@.id.pool_type)));
            assert(address_seq(all@) =~= all_before.push(address@));
            assert(sub.map_values(|e: (Seq<u8>, Seq<char>)| e.0) =~= snap_entries.subrange(0, j as int).map_values(
                |e: (Seq<u8>, Seq<char>)| e.0,
            ).push(address@));
        }
        j = j + 1;
    }
    proof {
        assert(snap_entries.subrange(0, snapshots@.len() as int) =~= snap_entries);
    }
    let ghost all_seq = address_seq(all@);
    let mut k: usize = 0;
    proof {
        assert(address_seq(addresses@).to_set() =~= all_seq.subrange(0, 0).to_set());
        assert(strictly_sorted(address_seq(addresses@)));
    }
    while k < all.len()
        invariant
            k <= all@.len(),
            all_seq == address_seq(all@),
            strictly_sorted(address_seq(addresses@)),
            address_seq(addresses@).to_set() == all_seq.subrange(0, k as int).to_set(),
        decreases all@.len() - k,
    {
        insert_address(&mut addresses, all[k]);
        proof {
            assert(all_seq.subrange(0, k + 1) =~= all_seq.subrange(0, k as int).push(all@[k as int]@));
            all_seq.subrange(0, k as int).lemma_push_to_set_commute(all@[k as int]@);
        }
        k = k + 1;
    }
    proof {
        assert(all_seq.subrange(0, all@.len() as int) =~= all_seq);
        let a = v2_pool_addresses(v2_bootstrap@);
        let b = v3_pool_addresses(v3_bootstrap@);
        let c = snap_entries.map_values(|e: (Seq<u8>, Seq<char>)| e.0);
        assert((a + b + c).to_set() =~= a.to_set() + b.to_set() + c.to_set()) by {
            assert forall|x: Seq<u8>| (a + b + c).to_set().contains(x) implies (a.to_set() + b.to_set()
                + c.to_set()).contains(x) by {
                let i = choose|i: int| 0 <= i < (a + b + c).len() && (a + b + c)[i] == x;
                if i < a.len() {
                    assert(a[i] == x);
                } else if i < a.len() + b.len() {
                    assert(b[i - a.len()] == x);
                } else {
                    assert(c[i - a.len() - b.len()] == x);
                }
            }
            assert forall|x: Seq<u8>| (a.to_set() + b.to_set() + c.to_set()).contains(x) implies (a + b
                + c).to_set().contains(x) by {
                if a.to_set().contains(x) {
                    let i = choose|i: int| 0 <= i < a.len() && a[i] == x;
                    assert((a + b + c)[i] == x);
                } else if b.to_set().contains(x) {
                    let i = choose|i: int| 0 <= i < b.len() && b[i] == x;
                    assert((a + b + c)[a.len() + i] == x);
                } else {
                    let i = choose|i: int| 0 <= i < c.len() && c[i] == x;
                    assert((a + b + c)[a.len() + b.len() + i] == x);
                }
            }
        }
    }
    SubscriptionMetadata { addresses, topics, topic_kinds, pool_labels: labels }
}


/// An internal listener error with the given message.
pub fn to_internal(message: String) -> (r: EventListenerError)
    ensures
        r == EventListenerError::Internal(message),
{
    EventListenerError::Internal(message)
}

/// Labels logs by the DEX of their pool.
#[derive(Debug)]
pub struct LoggingEventSink {
    pub labels: AssocList<Address, String>,
}

impl LoggingEventSink {
    pub fn new(labels: AssocList<Address, String>) -> (r: LoggingEventSink)
        ensures
            r.labels == labels,
    {
        LoggingEventSink { labels }
    }

    /// The label of a pool, `unknown` for one without.
    pub fn label_for(&self, address: &Address) -> (r: String)
        requires
            self.labels.wf(),
        ensures
            self.labels.map().contains_key(address@) ==> r@ == self.labels.map()[address@]@,
            !self.labels.map().contains_key(address@) ==> r@ == "unknown"@,
    {
        match self.labels.get(address) {
            Some(l) => l.clone(),
            None => String::from_str("unknown"),
        }
    }
}

/// The pool type a log is handled as: by its pool's label when it has one
/// (`pancake_v2` or `pancake_v3`, no type for another label), else V2 when
/// the V2 token table knows the pool, else V3 when the V3 table does.
pub open spec fn detected_type(
    labels: Map<Seq<u8>, String>,
    v2_tokens: Option<Map<Seq<u8>, (Asset, Asset)>>,
    v3_pools: Map<Seq<u8>, V3BootstrapPool>,
    address: Seq<u8>,
) -> Option<PoolTypeModel> {
    if labels.contains_key(address) {
        if labels[address]@ == "pancake_v2"@ {
            Some(PoolTypeModel::PancakeV2)
        } else if labels[address]@ == "pancake_v3"@ {
            Some(PoolTypeModel::PancakeV3)
        } else {
            None
        }
    } else if v2_tokens matches Some(m) && m.contains_key(address) {
        Some(PoolTypeModel::PancakeV2)
    } else if v3_pools.contains_key(address) {
        Some(PoolTypeModel::PancakeV3)
    } else {
        None
    }
}

/// What to do before a log of a pool is dispatched: nothing, a reason why
/// the pool's state cannot be fetched, or the fetch of its state as of the
/// block before the log's.
#[derive(Debug)]
pub enum InitPlan {
    Ready,
    NoFetcher,
    MissingTokens,
    NoV2Config,
    MissingV3Config,
    FetchV2 { pool: V2BootstrapPool, block: Option<u64> },
    FetchV3 { pool: V3BootstrapPool, block: Option<u64> },
}

/// Decides, for each log, whether its pool's state must first be fetched.
#[derive(Debug)]
pub struct PoolInitPlanner {
    pub chain_id: u64,
    pub pool_labels: AssocList<Address, String>,
    pub v2_tokens: Option<AssocList<Address, (Asset, Asset)>>,
    pub v3_pools: AssocList<Address, V3BootstrapPool>,
}

pub open spec fn v2_token_map(t: Option<AssocList<Address, (Asset, Asset)>>) -> Option<Map<Seq<u8>, (Asset, Asset)>> {
    match t {
        Some(l) => Some(l.map()),
        None => None,
    }
}

/// The identifier a fetched pool is stored under.
pub open spec fn fetched_id(chain_id: u64, address: Seq<u8>, t: PoolTypeModel) -> PoolIdModel {
    PoolIdModel {
        chain_namespace: ChainNamespaceModel::Evm,
        chain_id,
        dex: crate::types::pool_type_label_spec(t),
        address,
        pool_type: t,
    }
}

/// The block before a log's, if there is one.
pub open spec fn block_before(block: u64) -> Option<u64> {
    if block == 0 {
        None
    } else {
        Some((block - 1) as u64)
    }
}

impl PoolInitPlanner {
    pub open spec fn wf(&self) -> bool {
        &&& self.pool_labels.wf()
        &&& self.v3_pools.wf()
        &&& (self.v2_tokens matches Some(t) ==> t.wf())
    }

    /// The pool type of a log's pool; see `detected_type`.
    pub fn detect_pool_type(&self, address: &Address) -> (r: Option<PoolType>)
        requires
            self.wf(),
        ensures
            match r {
                Some(t) => detected_type(
                    self.pool_labels.map(),
                    v2_token_map(self.v2_tokens),
                    self.v3_pools.map(),
                    address@,
                ) == Some(t@),
                None => detected_type(
                    self.pool_labels.map(),
                    v2_token_map(self.v2_tokens),
                    self.v3_pools.map(),
                    address@,
                ) is None,
            },
    {
        if let Some(label) = self.pool_labels.get(address) {
            if crate::text::same_text(label.as_str(), "pancake_v2") {
                return Some(PoolType::PancakeV2);
            } else if crate::text::same_text(label.as_str(), "pancake_v3") {
                return Some(PoolType::PancakeV3);
            } else {
                return None;
            }
        }
        if let Some(tokens) = &self.v2_tokens {
            if tokens.find(address).is_some() {
                return Some(PoolType::PancakeV2);
            }
        }
        if self.v3_pools.find(address).is_some() {
            return Some(PoolType::PancakeV3);
        }
        None
    }

    /// What to do before the log is dispatched. A pair-created log needs
    /// nothing (its handler sets the pool up); a log of a V2 or V3 pool that
    /// is not stored needs its state fetched, when a fetcher is at hand and
    /// the pool's tokens are known.
    pub fn plan(&self, repository: &InMemoryPoolRepository, has_fetcher: bool, event: &EventEnvelope) -> (r: InitPlan)
        requires
            self.wf(),
        ensures
            ({
                let t = detected_type(
                    self.pool_labels.map(),
                    v2_token_map(self.v2_tokens),
                    self.v3_pools.map(),
                    event@.address,
                );
                if event@.kind == EventKind::PairCreated {
                    r is Ready
                } else if t == Some(PoolTypeModel::PancakeV2) {
                    if lookup(repository@, fetched_id(self.chain_id, event@.address, PoolTypeModel::PancakeV2)) is Some {
                        r is Ready
                    } else if !has_fetcher {
                        r is NoFetcher
                    } else {
                        match v2_token_map(self.v2_tokens) {
                            None => r is NoV2Config,
                            Some(m) => if m.contains_key(event@.address) {
                                r matches InitPlan::FetchV2 { pool, block } && pool.pool@ == event@.address
                                    && pool.token0@ == m[event@.address].0@ && pool.token1@
                                    == m[event@.address].1@ && block == block_before(event@.block_number)
                            } else {
                                r is MissingTokens
                            },
                        }
                    }
                } else if t == Some(PoolTypeModel::PancakeV3) {
                    if lookup(repository@, fetched_id(self.chain_id, event@.address, PoolTypeModel::PancakeV3)) is Some {
                        r is Ready
                    } else if !has_fetcher {
                        r is NoFetcher
                    } else if self.v3_pools.map().contains_key(event@.address) {
                        r matches InitPlan::FetchV3 { pool, block } && pool.pool
                            == self.v3_pools.map()[event@.address].pool && pool.token0@
                            == self.v3_pools.map()[event@.address].token0@ && pool.token1@
                            == self.v3_pools.map()[event@.address].token1@ && block == block_before(
                            event@.block_number,
                        )
                    } else {
                        r is MissingV3Config
                    }
                } else {
                    r is Ready
                }
            }),
    {
        if event.kind == EventKind::PairCreated {
            return InitPlan::Ready;
        }
        let block = if event.block_number == 0 {
            None
        } else {
            Some(event.block_number - 1)
        };
        match self.detect_pool_type(&event.address) {
            Some(PoolType::PancakeV2) => {
                let id = PoolIdentifier {
                    chain_namespace: ChainNamespace::Evm,
                    chain_id: self.chain_id,
                    dex: PoolType::PancakeV2.label(),
                    address: event.address,
                    pool_type: PoolType::PancakeV2,
                };
                if let Ok(Some(_)) = repository.get(&id) {
                    return InitPlan::Ready;
                }
                if !has_fetcher {
                    return InitPlan::NoFetcher;
                }
                match &self.v2_tokens {
                    Some(map) => match map.get(&event.address) {
                        Some(pair) => InitPlan::FetchV2 {
                            pool: V2BootstrapPool {
                                pool: event.address,
                                token0: pair.0.clone(),
                                token1: pair.1.clone(),
                            },
                            block,
                        },
                        None => InitPlan::MissingTokens,
                    },
                    None => InitPlan::NoV2Config,
                }
            },
            Some(PoolType::PancakeV3) => {
                let id = PoolIdentifier {
                    chain_namespace: ChainNamespace::Evm,
                    chain_id: self.chain_id,
                    dex: PoolType::PancakeV3.label(),
                    address: event.address,
                    pool_type: PoolType::PancakeV3,
                };
                if let Ok(Some(_)) = repository.get(&id) {
                    return InitPlan::Ready;
                }
                if !has_fetcher {
                    return InitPlan::NoFetcher;
                }
                match self.v3_pools.get(&event.address) {
                    Some(info) => InitPlan::FetchV3 { pool: info.clone(), block },
                    None => InitPlan::MissingV3Config,
                }
            },
            _ => InitPlan::Ready,
        }
    }
}

} // verus!
