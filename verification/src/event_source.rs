//! The decisions of the chain log source: which blocks a backfill reads and
//! in what chunks, how long it waits before reconnecting, how a log becomes
//! an event, and when it reports on the flow of events. The connections,
//! waits and requests are the caller's.
use vstd::prelude::*;

use crate::assoc::AssocList;
use crate::event::{EventEnvelope, EventKind, EventModel};
use crate::types::{Address, H256};

verus! {

/// The settings of the chain log source.
#[derive(Debug)]
pub struct EthersEventSourceConfig {
    /// The WebSocket endpoint.
    pub ws_endpoint: String,
    /// The HTTP endpoint, for backfill.
    pub http_endpoint: String,
    /// The contracts whose logs are read; all where empty.
    pub addresses: Vec<Address>,
    /// The first topics of the logs that are read.
    pub topics: Vec<H256>,
    /// The event kind of each first topic.
    pub topic_kinds: AssocList<H256, EventKind>,
    /// How many blocks before the latest the backfill starts.
    pub backfill_blocks: u64,
    /// The largest span of blocks read in one backfill request.
    pub chunk_size: u64,
    /// The wait after a failed read, in seconds.
    pub retry_interval_secs: u64,
    /// The capacity of the internal event channel.
    pub channel_capacity: usize,
    /// The gap between events, in milliseconds, above which a warning is
    /// given; no warning for `0`.
    pub warn_delay_ms: u64,
    /// Every how many events statistics are reported; never for `0`.
    pub stats_event_interval: u64,
}

impl Default for EthersEventSourceConfig {
    fn default() -> (r: EthersEventSourceConfig)
        ensures
            r.ws_endpoint@ == Seq::<char>::empty(),
            r.http_endpoint@ == Seq::<char>::empty(),
            r.addresses@.len() == 0,
            r.topics@.len() == 0,
            r.topic_kinds.wf(),
            r.topic_kinds.map() == Map::<Seq<u8>, EventKind>::empty(),
            r.backfill_blocks == 0,
            r.chunk_size == 1000,
            r.retry_interval_secs == 5,
            r.channel_capacity == 1024,
            r.warn_delay_ms == 5000,
            r.stats_event_interval == 100,
    {
        let topic_kinds: AssocList<H256, EventKind> = AssocList::new();
        EthersEventSourceConfig {
            ws_endpoint: String::new(),
            http_endpoint: String::new(),
            addresses: Vec::new(),
            topics: Vec::new(),
            topic_kinds,
            backfill_blocks: 0,
            chunk_size: 1000,
            retry_interval_secs: 5,
            channel_capacity: 1024,
            warn_delay_ms: 5000,
            stats_event_interval: 100,
        }
    }
}

/// The first block of a backfill: `backfill_blocks` before the latest,
/// but not before block 0.
pub fn backfill_start(latest: u64, backfill_blocks: u64) -> (r: u64)
    ensures
        r == if backfill_blocks >= latest {
            0
        } else {
            latest - backfill_blocks
        },
{
    let span = if backfill_blocks < latest {
        backfill_blocks
    } else {
        latest
    };
    latest - span
}

/// The last block of the backfill chunk that starts at `current`: at most
/// `chunk_size` blocks (at least one), and not past the latest.
pub fn backfill_chunk_end(current: u64, chunk_size: u64, latest: u64) -> (r: u64)
    requires
        current <= latest,
    ensures
        current <= r <= latest,
        r - current < if chunk_size == 0 {
            1
        } else {
            chunk_size as int
        },
        r == latest || r - current + 1 == if chunk_size == 0 {
            1
        } else {
            chunk_size as int
        },
{
    let chunk = if chunk_size == 0 {
        1
    } else {
        chunk_size
    };
    let end = if current <= u64::MAX - (chunk - 1) {
        current + (chunk - 1)
    } else {
        u64::MAX
    };
    if end < latest {
        end
    } else {
        latest
    }
}

/// Where the backfill goes on after a chunk: the block after its end, or
/// nowhere after the last block there is.
pub fn next_backfill_block(end: u64, latest: u64) -> (r: Option<u64>)
    ensures
        r == if end == u64::MAX || end >= latest {
            None::<u64>
        } else {
            Some((end + 1) as u64)
        },
{
    if end == u64::MAX || end >= latest {
        None
    } else {
        Some(end + 1)
    }
}

/// The blocks `start ..= latest` read chunk by chunk: each chunk begins
/// right after the one before and the last ends at `latest`.
pub open spec fn chunk_ends(start: u64, chunk_size: u64, latest: u64) -> Seq<u64>
    decreases latest - start,
{
    if start > latest {
        Seq::empty()
    } else {
        let chunk: int = if chunk_size == 0 {
            1
        } else {
            chunk_size as int
        };
        let end: int = if start + chunk - 1 < latest {
            start + chunk - 1
        } else {
            latest as int
        };
        if end >= latest {
            seq![end as u64]
        } else {
            seq![end as u64] + chunk_ends((end + 1) as u64, chunk_size, latest)
        }
    }
}

/// The ends of the chunks that a backfill from `start` reads, in order.
pub fn backfill_chunk_ends(start: u64, chunk_size: u64, latest: u64) -> (r: Vec<u64>)
    ensures
        r@ == chunk_ends(start, chunk_size, latest),
{
    let mut out: Vec<u64> = Vec::new();
    if start > latest {
        return out;
    }
    let mut current = start;
    loop
        invariant
            start <= current <= latest,
            out@ + chunk_ends(current, chunk_size, latest) == chunk_ends(start, chunk_size, latest),
        decreases latest - current,
    {
        let end = backfill_chunk_end(current, chunk_size, latest);
        let ghost before = out@;
        out.push(end);
        match next_backfill_block(end, latest) {
            Some(next) => {
                proof {
                    assert(chunk_ends(current, chunk_size, latest) =~= seq![end] + chunk_ends(
                        next,
                        chunk_size,
                        latest,
                    ));
                    assert(out@ + chunk_ends(next, chunk_size, latest) =~= before + chunk_ends(
                        current,
                        chunk_size,
                        latest,
                    ));
                }
                current = next;
            },
            None => {
                proof {
                    assert(chunk_ends(current, chunk_size, latest) =~= seq![end]);
                    assert(out@ =~= before + chunk_ends(current, chunk_size, latest));
                    assert(chunk_ends(start, chunk_size, latest) =~= out@);
                }
                return out;
            },
        }
    }
}

/// The chunks of a backfill cover its blocks in order: every chunk ends
/// no later than the latest block and after the one before, and the last
/// one ends at the latest block.
pub proof fn lemma_chunks_cover(start: u64, chunk_size: u64, latest: u64)
    requires
        start <= latest,
    ensures
        chunk_ends(start, chunk_size, latest).len() > 0,
        chunk_ends(start, chunk_size, latest).last() == latest,
        forall|i: int|
            0 <= i < chunk_ends(start, chunk_size, latest).len() ==> start <= #[trigger] chunk_ends(
                start,
                chunk_size,
                latest,
            )[i] <= latest,
        forall|i: int|
            0 < i < chunk_ends(start, chunk_size, latest).len() ==> chunk_ends(
                start,
                chunk_size,
                latest,
            )[i - 1] < #[trigger] chunk_ends(start, chunk_size, latest)[i],
    decreases latest - start,
{
    let chunk: int = if chunk_size == 0 {
        1
    } else {
        chunk_size as int
    };
    let end: int = if start + chunk - 1 < latest {
        start + chunk - 1
    } else {
        latest as int
    };
    if end < latest {
        let next = (end + 1) as u64;
        lemma_chunks_cover(next, chunk_size, latest);
        let rest = chunk_ends(next, chunk_size, latest);
        let all = chunk_ends(start, chunk_size, latest);
        assert(all =~= seq![end as u64] + rest);
        assert forall|i: int| 0 <= i < all.len() implies start <= #[trigger] all[i] <= latest by {
            if i > 0 {
                assert(all[i] == rest[i - 1]);
            }
        }
        assert forall|i: int| 0 < i < all.len() implies all[i - 1] < #[trigger] all[i] by {
            assert(all[i] == rest[i - 1]);
            if i > 1 {
                assert(all[i - 1] == rest[i - 2]);
            }
        }
    }
}

/// The first wait before reconnecting, in seconds: the configured one, or
/// one second where none is configured.
pub open spec fn base_retry(retry_interval_secs: u64) -> u64 {
    if retry_interval_secs == 0 {
        1
    } else {
        retry_interval_secs
    }
}

/// The reconnection waits, in seconds: the first, and the longest, six
/// times the first.
pub fn ws_retry_bounds(retry_interval_secs: u64) -> (r: (u64, u64))
    requires
        retry_interval_secs * 6 <= u64::MAX,
    ensures
        r.0 == base_retry(retry_interval_secs),
        r.1 == base_retry(retry_interval_secs) * 6,
{
    let base = if retry_interval_secs == 0 {
        1
    } else {
        retry_interval_secs
    };
    (base, base * 6)
}

/// The wait before the next reconnection: back to the first after a
/// connection that held, else twice the last, up to the longest.
pub open spec fn next_retry_spec(current: u64, connected: bool, base: u64, max: u64) -> u64 {
    if connected {
        base
    } else if current * 2 > max {
        max
    } else {
        (current * 2) as u64
    }
}

pub fn next_ws_retry(current: u64, connected: bool, base: u64, max: u64) -> (r: u64)
    ensures
        r == next_retry_spec(current, connected, base, max),
{
    if connected {
        base
    } else {
        match current.checked_mul(2) {
            Some(d) => if d > max {
                max
            } else {
                d
            },
            None => max,
        }
    }
}

/// The waits stay between the first and the longest.
pub proof fn lemma_retry_bounded(current: u64, connected: bool, base: u64, max: u64)
    requires
        base <= current <= max,
        base <= max,
    ensures
        base <= next_retry_spec(current, connected, base, max) <= max,
{
}

/// The event kind of a log: that of its first topic, else `Unknown`.
pub open spec fn log_kind(kinds: Map<Seq<u8>, EventKind>, topics: Seq<Seq<u8>>) -> EventKind {
    if topics.len() > 0 && kinds.contains_key(topics[0]) {
        kinds[topics[0]]
    } else {
        EventKind::Unknown
    }
}

/// The event a chain log becomes; a removed log becomes none. A missing
/// block number or log index reads as 0, a missing transaction hash as
/// zero; the block hash and time are not carried.
pub open spec fn log_event(
    kinds: Map<Seq<u8>, EventKind>,
    removed: Option<bool>,
    block_number: Option<u64>,
    transaction_hash: Option<Seq<u8>>,
    log_index: Option<u64>,
    address: Seq<u8>,
    topics: Seq<Seq<u8>>,
    data: Seq<u8>,
) -> Option<EventModel> {
    if removed == Some(true) {
        None
    } else {
        Some(
            EventModel {
                kind: log_kind(kinds, topics),
                block_number: match block_number {
                    Some(b) => b,
                    None => 0,
                },
                block_hash: None,
                block_timestamp: None,
                transaction_hash: match transaction_hash {
                    Some(h) => h,
                    None => Seq::new(32, |i: int| 0u8),
                },
                log_index: match log_index {
                    Some(i) => i,
                    None => 0,
                },
                address,
                topics,
                payload: data,
            },
        )
    }
}

impl EthersEventSourceConfig {
    /// The event a chain log becomes, if it was not removed.
    pub fn envelope_from_log(
        &self,
        removed: Option<bool>,
        block_number: Option<u64>,
        transaction_hash: Option<H256>,
        log_index: Option<u64>,
        address: Address,
        topics: Vec<H256>,
        data: Vec<u8>,
    ) -> (r: Option<EventEnvelope>)
        requires
            self.topic_kinds.wf(),
        ensures
            match r {
                Some(e) => Some(e@),
                None => None::<EventModel>,
            } == log_event(
                self.topic_kinds.map(),
                removed,
                block_number,
                match transaction_hash {
                    Some(h) => Some(h@),
                    None => None,
                },
                log_index,
                address@,
                topics@.map_values(|t: H256| t@),
                data@,
            ),
    {
        if let Some(true) = removed {
            return None;
        }
        let kind = if topics.len() > 0 {
            match self.topic_kinds.get(&topics[0]) {
                Some(k) => *k,
                None => EventKind::Unknown,
            }
        } else {
            EventKind::Unknown
        };
        let tx = match transaction_hash {
            Some(h) => h,
            None => H256::zero(),
        };
        let e = EventEnvelope {
            kind,
            block_number: match block_number {
                Some(b) => b,
                None => 0,
            },
            block_hash: None,
            block_timestamp: None,
            transaction_hash: tx,
            log_index: match log_index {
                Some(i) => i,
                None => 0,
            },
            address,
            topics,
            payload: data,
        };
        proof {
            if transaction_hash is None {
                assert(tx@ =~= Seq::new(32, |i: int| 0u8));
            }
        }
        Some(e)
    }
}

/// The time since the previous event, in milliseconds: none before the
/// first event, and never negative.
pub fn event_interval_ms(prev_ms: u64, now_ms: u64) -> (r: u64)
    ensures
        r == if prev_ms == 0 || now_ms <= prev_ms {
            0
        } else {
            now_ms - prev_ms
        },
{
    if prev_ms == 0 || now_ms <= prev_ms {
        0
    } else {
        now_ms - prev_ms
    }
}

/// What is reported after an event is passed on.
#[derive(Clone, Copy, Debug, PartialEq, Eq, Structural)]
pub enum EventNotice {
    /// The gap since the previous event passed the warning threshold.
    DelayWarning,
    /// A statistics report is due.
    Stats,
    Nothing,
}

/// A delay warning when warnings are on and the gap passed the threshold;
/// else statistics on every `stats_event_interval`-th event, when on.
pub open spec fn notice_of(
    count: u64,
    interval_ms: u64,
    warn_delay_ms: u64,
    stats_event_interval: u64,
) -> EventNotice {
    if warn_delay_ms > 0 && interval_ms > warn_delay_ms {
        EventNotice::DelayWarning
    } else if stats_event_interval > 0 && count % stats_event_interval == 0 {
        EventNotice::Stats
    } else {
        EventNotice::Nothing
    }
}

impl EthersEventSourceConfig {
    /// What to report after the `count`-th event, which came `interval_ms`
    /// after the one before.
    pub fn event_notice(&self, count: u64, interval_ms: u64) -> (r: EventNotice)
        ensures
            r == notice_of(count, interval_ms, self.warn_delay_ms, self.stats_event_interval),
    {
        if self.warn_delay_ms > 0 && interval_ms > self.warn_delay_ms {
            EventNotice::DelayWarning
        } else if self.stats_event_interval > 0 && count % self.stats_event_interval == 0 {
            EventNotice::Stats
        } else {
            EventNotice::Nothing
        }
    }
}

} // verus!
