//! Chain events as the library sees them, with the in-memory queue, store and
//! replay source that carry them.
use std::collections::VecDeque;
use vstd::prelude::*;
use vstd::string::*;

use crate::types::{Address, H256};

verus! {

/// The kind of a PancakeSwap event, as the log source labels it.
#[derive(Clone, Copy, Debug, PartialEq, Eq, Structural)]
pub enum EventKind {
    Swap,
    Mint,
    Burn,
    PairCreated,
    Sync,
    Collect,
    Unknown,
}

/// The abstract value of an event.
pub struct EventModel {
    pub kind: EventKind,
    pub block_number: u64,
    pub block_hash: Option<Seq<u8>>,
    pub block_timestamp: Option<u64>,
    pub transaction_hash: Seq<u8>,
    pub log_index: u64,
    pub address: Seq<u8>,
    pub topics: Seq<Seq<u8>>,
    pub payload: Seq<u8>,
}

/// A chain log in normalised form.
#[derive(Debug)]
pub struct EventEnvelope {
    pub kind: EventKind,
    pub block_number: u64,
    pub block_hash: Option<H256>,
    pub block_timestamp: Option<u64>,
    pub transaction_hash: H256,
    pub log_index: u64,
    pub address: Address,
    pub topics: Vec<H256>,
    pub payload: Vec<u8>,
}

impl View for EventEnvelope {
    type V = EventModel;

    open spec fn view(&self) -> EventModel {
        EventModel {
            kind: self.kind,
            block_number: self.block_number,
            block_hash: match self.block_hash {
                Some(h) => Some(h@),
                None => None,
            },
            block_timestamp: self.block_timestamp,
            transaction_hash: self.transaction_hash@,
            log_index: self.log_index,
            address: self.address@,
            topics: self.topics@.map_values(|t: H256| t@),
            payload: self.payload@,
        }
    }
}

fn copy_topics(topics: &Vec<H256>) -> (r: Vec<H256>)
    ensures
        r@.map_values(|t: H256| t@) == topics@.map_values(|t: H256| t@),
{
    let mut out: Vec<H256> = Vec::new();
    let mut i: usize = 0;
    while i < topics.len()
        invariant
            i <= topics@.len(),
            out@.len() == i,
            forall|j: int| 0 <= j < i ==> out@[j]@ == topics@[j]@,
        decreases topics@.len() - i,
    {
        out.push(topics[i]);
        i = i + 1;
    }
    assert(out@.map_values(|t: H256| t@) =~= topics@.map_values(|t: H256| t@));
    out
}

fn copy_bytes(bytes: &Vec<u8>) -> (r: Vec<u8>)
    ensures
        r@ == bytes@,
{
    let mut out: Vec<u8> = Vec::new();
    let mut i: usize = 0;
    while i < bytes.len()
        invariant
            i <= bytes@.len(),
            out@ == bytes@.subrange(0, i as int),
        decreases bytes@.len() - i,
    {
        out.push(bytes[i]);
        i = i + 1;
        assert(out@ =~= bytes@.subrange(0, i as int));
    }
    assert(bytes@.subrange(0, bytes@.len() as int) =~= bytes@);
    out
}

impl Clone for EventEnvelope {
    fn clone(&self) -> (r: EventEnvelope)
        ensures
            r@ == self@,
    {
        EventEnvelope {
            kind: self.kind,
            block_number: self.block_number,
            block_hash: self.block_hash,
            block_timestamp: self.block_timestamp,
            transaction_hash: self.transaction_hash,
            log_index: self.log_index,
            address: self.address,
            topics: copy_topics(&self.topics),
            payload: copy_bytes(&self.payload),
        }
    }
}

/// Errors of listening to and handling events.
#[derive(Debug)]
pub enum EventListenerError {
    Network(String),
    Decode(String),
    Internal(String),
    Queue(String),
    Storage(String),
}

/// Errors of the event queue.
#[derive(Debug)]
pub enum QueueError {
    Closed,
    Internal(String),
}

impl QueueError {
    /// The error's message.
    pub fn message(&self) -> (r: String)
        ensures
            r@ == match self {
                QueueError::Closed => "队列已关闭"@,
                QueueError::Internal(m) => "队列内部错误: "@ + m@,
            },
    {
        match self {
            QueueError::Closed => String::from_str("队列已关闭"),
            QueueError::Internal(m) => String::from_str("队列内部错误: ").concat(m.as_str()),
        }
    }
}

/// Errors of the event store.
#[derive(Debug)]
pub enum EventStoreError {
    Storage(String),
}

impl EventStoreError {
    /// The error's message.
    pub fn message(&self) -> (r: String)
        ensures
            r@ == match self {
                EventStoreError::Storage(m) => "存储失败: "@ + m@,
            },
    {
        match self {
            EventStoreError::Storage(m) => String::from_str("存储失败: ").concat(m.as_str()),
        }
    }
}

/// The message of a listener error.
pub open spec fn listener_error_text(e: EventListenerError) -> Seq<char> {
    match e {
        EventListenerError::Network(m) => "网络异常: "@ + m@,
        EventListenerError::Decode(m) => "解码失败: "@ + m@,
        EventListenerError::Internal(m) => "内部错误: "@ + m@,
        EventListenerError::Queue(m) => "队列错误: "@ + m@,
        EventListenerError::Storage(m) => "存储错误: "@ + m@,
    }
}

impl EventListenerError {
    /// The error's message.
    pub fn message(&self) -> (r: String)
        ensures
            r@ == listener_error_text(*self),
    {
        match self {
            EventListenerError::Network(m) => String::from_str("网络异常: ").concat(m.as_str()),
            EventListenerError::Decode(m) => String::from_str("解码失败: ").concat(m.as_str()),
            EventListenerError::Internal(m) => String::from_str("内部错误: ").concat(m.as_str()),
            EventListenerError::Queue(m) => String::from_str("队列错误: ").concat(m.as_str()),
            EventListenerError::Storage(m) => String::from_str("存储错误: ").concat(m.as_str()),
        }
    }

    /// A queue error reported as a listener error.
    pub fn from_queue(err: QueueError) -> (r: EventListenerError)
        ensures
            r matches EventListenerError::Queue(m) && m@ == match err {
                QueueError::Closed => "队列已关闭"@,
                QueueError::Internal(s) => "队列内部错误: "@ + s@,
            },
    {
        EventListenerError::Queue(err.message())
    }

    /// A store error reported as a listener error.
    pub fn from_store(err: EventStoreError) -> (r: EventListenerError)
        ensures
            r matches EventListenerError::Storage(m) && m@ == match err {
                EventStoreError::Storage(s) => "存储失败: "@ + s@,
            },
    {
        EventListenerError::Storage(err.message())
    }
}

/// A first-in first-out carrier of events to their consumers.
pub trait EventQueue {
    fn enqueue(&mut self, event: EventEnvelope) -> Result<(), QueueError>;

    fn dequeue(&mut self) -> Option<EventEnvelope>;

    fn shutdown(&mut self);
}

/// A persistent record of events, for replay.
pub trait EventStore {
    fn append(&mut self, event: &EventEnvelope) -> Result<(), EventStoreError>;

    fn load_range(&self, from_block: u64, to_block: Option<u64>) -> Result<
        Vec<EventEnvelope>,
        EventStoreError,
    >;

    fn last_block(&self) -> Result<Option<u64>, EventStoreError>;
}

/// Where events come from: a chain subscription or a replay.
pub trait EventSource {
    fn next_event(&mut self) -> Result<Option<EventEnvelope>, EventListenerError>;

    /// Called when the connection drops; by default there is nothing to
    /// restore.
    fn handle_disconnect(&mut self) -> (r: Result<(), EventListenerError>)
        default_ensures
            r is Ok,
    {
        Ok(())
    }
}

/// A consumer of events.
pub trait EventSink {
    fn handle_event(&mut self, event: EventEnvelope) -> Result<(), EventListenerError>;
}

/// A first-in first-out queue of events that can be shut down.
#[derive(Debug)]
pub struct InMemoryEventQueue {
    inner: VecDeque<EventEnvelope>,
    closed: bool,
}

impl InMemoryEventQueue {
    /// The queued events, oldest first.
    pub closed spec fn pending(&self) -> Seq<EventModel> {
        self.inner@.map_values(|e: EventEnvelope| e@)
    }

    pub closed spec fn is_closed(&self) -> bool {
        self.closed
    }

    pub fn new() -> (r: InMemoryEventQueue)
        ensures
            r.pending() == Seq::<EventModel>::empty(),
            !r.is_closed(),
    {
        let r = InMemoryEventQueue { inner: VecDeque::new(), closed: false };
        assert(r.pending() =~= Seq::<EventModel>::empty());
        r
    }

}

impl EventQueue for InMemoryEventQueue {
    /// Appends an event unless the queue has been shut down.
    fn enqueue(&mut self, event: EventEnvelope) -> (r: Result<(), QueueError>)
        ensures
            final(self).is_closed() == old(self).is_closed(),
            old(self).is_closed() ==> (r matches Err(QueueError::Closed) && final(self).pending()
                == old(self).pending()),
            !old(self).is_closed() ==> (r is Ok && final(self).pending() == old(self).pending().push(
                event@,
            )),
    {
        if self.closed {
            return Err(QueueError::Closed);
        }
        self.inner.push_back(event);
        assert(self.pending() =~= old(self).pending().push(event@));
        Ok(())
    }

    /// Takes the oldest event, if any. Where an open queue is empty this
    /// returns `None`; waiting for the next event is the caller's matter.
    fn dequeue(&mut self) -> (r: Option<EventEnvelope>)
        ensures
            final(self).is_closed() == old(self).is_closed(),
            old(self).pending().len() == 0 ==> (r is None && final(self).pending() == old(
                self,
            ).pending()),
            old(self).pending().len() > 0 ==> (r matches Some(e) && e@ == old(self).pending()[0]
                && final(self).pending() == old(self).pending().drop_first()),
    {
        let r = self.inner.pop_front();
        assert(self.pending() =~= if old(self).pending().len() == 0 {
            old(self).pending()
        } else {
            old(self).pending().drop_first()
        });
        r
    }

    /// Refuses further events; queued ones can still be taken.
    fn shutdown(&mut self)
        ensures
            final(self).is_closed(),
            final(self).pending() == old(self).pending(),
    {
        self.closed = true;
    }
}

/// Whether an event's block lies in `from ..= to` (no upper bound for `None`).
pub open spec fn in_block_range(e: EventModel, from_block: u64, to_block: Option<u64>) -> bool {
    e.block_number >= from_block && match to_block {
        Some(to) => e.block_number <= to,
        None => true,
    }
}

/// Loading a block range keeps exactly the events of the range: every event
/// kept lies at or after `from_block` and, where there is an upper bound,
/// at or before it, and every event of the range is kept.
pub proof fn lemma_block_range_exact(events: Seq<EventModel>, from_block: u64, to_block: Option<u64>)
    ensures
        ({
            let kept = events.filter(|e: EventModel| in_block_range(e, from_block, to_block));
            &&& forall|i: int|
                0 <= i < kept.len() ==> (#[trigger] kept[i]).block_number >= from_block && (
                to_block matches Some(t) ==> kept[i].block_number <= t)
            &&& forall|i: int|
                0 <= i < events.len() && (#[trigger] events[i]).block_number >= from_block && (
                to_block matches Some(t) ==> events[i].block_number <= t) ==> kept.contains(events[i])
        }),
{
    let pred = |e: EventModel| in_block_range(e, from_block, to_block);
    let kept = events.filter(pred);
    assert forall|i: int| 0 <= i < kept.len() implies (#[trigger] kept[i]).block_number >= from_block && (
        to_block matches Some(t) ==> kept[i].block_number <= t) by {
        events.lemma_filter_pred(pred, i);
    }
    assert forall|i: int|
        0 <= i < events.len() && (#[trigger] events[i]).block_number >= from_block && (
        to_block matches Some(t) ==> events[i].block_number <= t) implies kept.contains(events[i]) by {
        events.lemma_filter_contains(pred, i);
    }
}

/// An append-only list of events kept in memory.
#[derive(Debug)]
pub struct InMemoryEventStore {
    inner: Vec<EventEnvelope>,
}

impl InMemoryEventStore {
    /// The stored events in the order they were appended.
    pub closed spec fn events(&self) -> Seq<EventModel> {
        self.inner@.map_values(|e: EventEnvelope| e@)
    }

    pub fn new() -> (r: InMemoryEventStore)
        ensures
            r.events() == Seq::<EventModel>::empty(),
    {
        let r = InMemoryEventStore { inner: Vec::new() };
        assert(r.events() =~= Seq::<EventModel>::empty());
        r
    }

}

impl EventStore for InMemoryEventStore {
    fn append(&mut self, event: &EventEnvelope) -> (r: Result<(), EventStoreError>)
        ensures
            r is Ok,
            final(self).events() == old(self).events().push(event@),
    {
        self.inner.push(event.clone());
        assert(self.events() =~= old(self).events().push(event@));
        Ok(())
    }

    /// The stored events whose block lies in the range, in stored order.
    fn load_range(&self, from_block: u64, to_block: Option<u64>) -> (r: Result<
        Vec<EventEnvelope>,
        EventStoreError,
    >)
        ensures
            r matches Ok(v) && v@.map_values(|e: EventEnvelope| e@) == self.events().filter(
                |e: EventModel| in_block_range(e, from_block, to_block),
            ),
    {
        let ghost pred = |e: EventModel| in_block_range(e, from_block, to_block);
        let mut out: Vec<EventEnvelope> = Vec::new();
        let mut i: usize = 0;
        while i < self.inner.len()
            invariant
                i <= self.inner@.len(),
                pred == (|e: EventModel| in_block_range(e, from_block, to_block)),
                out@.map_values(|e: EventEnvelope| e@) == self.events().subrange(0, i as int).filter(
                    pred,
                ),
            decreases self.inner@.len() - i,
        {
            let e = &self.inner[i];
            let keep = e.block_number >= from_block && match to_block {
                Some(to) => e.block_number <= to,
                None => true,
            };
            proof {
                reveal_with_fuel(Seq::<EventModel>::filter, 1);
                assert(self.events().subrange(0, i + 1).drop_last() =~= self.events().subrange(
                    0,
                    i as int,
                ));
            }
            if keep {
                out.push(e.clone());
            }
            i = i + 1;
            assert(out@.map_values(|e: EventEnvelope| e@) =~= self.events().subrange(
                0,
                i as int,
            ).filter(pred));
        }
        assert(self.events().subrange(0, self.inner@.len() as int) =~= self.events());
        Ok(out)
    }

    /// The block of the most recently appended event.
    fn last_block(&self) -> (r: Result<Option<u64>, EventStoreError>)
        ensures
            r matches Ok(b) && b == if self.events().len() == 0 {
                None
            } else {
                Some(self.events().last().block_number)
            },
    {
        if self.inner.len() == 0 {
            Ok(None)
        } else {
            Ok(Some(self.inner[self.inner.len() - 1].block_number))
        }
    }
}

/// A store that is not available yet: it refuses writes and reads.
#[derive(Clone, Copy, Debug)]
pub struct RocksDbEventStore;

impl RocksDbEventStore {
    /// A store for the given directory; nothing is opened yet.
    pub fn new(_path: &str) -> (r: RocksDbEventStore) {
        RocksDbEventStore
    }

}

impl EventStore for RocksDbEventStore {
    fn append(&mut self, event: &EventEnvelope) -> (r: Result<(), EventStoreError>)
        ensures
            r matches Err(EventStoreError::Storage(m)) && m@ == "RocksDB 存储尚未启用，请在后续阶段实现"@,
    {
        Err(EventStoreError::Storage(String::from_str("RocksDB 存储尚未启用，请在后续阶段实现")))
    }

    fn load_range(&self, from_block: u64, to_block: Option<u64>) -> (r: Result<
        Vec<EventEnvelope>,
        EventStoreError,
    >)
        ensures
            r matches Err(EventStoreError::Storage(m)) && m@ == "RocksDB 存储尚未启用，请在后续阶段实现"@,
    {
        Err(EventStoreError::Storage(String::from_str("RocksDB 存储尚未启用，请在后续阶段实现")))
    }

    fn last_block(&self) -> (r: Result<Option<u64>, EventStoreError>)
        ensures
            r matches Ok(None),
    {
        Ok(None)
    }
}

/// A source that replays events handed to it, in order.
#[derive(Debug)]
pub struct MockEventSource {
    events: VecDeque<EventEnvelope>,
}

impl MockEventSource {
    /// The events still to be replayed, next first.
    pub closed spec fn remaining(&self) -> Seq<EventModel> {
        self.events@.map_values(|e: EventEnvelope| e@)
    }

    pub fn new(events: Vec<EventEnvelope>) -> (r: MockEventSource)
        ensures
            r.remaining() == events@.map_values(|e: EventEnvelope| e@),
    {
        let mut r = MockEventSource { events: VecDeque::new() };
        r.push_events(events);
        r
    }

    /// Appends events after the ones still pending.
    pub fn push_events(&mut self, events: Vec<EventEnvelope>)
        ensures
            final(self).remaining() == old(self).remaining() + events@.map_values(
                |e: EventEnvelope| e@,
            ),
    {
        let ghost start = self.remaining();
        let mut events = events;
        let ghost all = events@.map_values(|e: EventEnvelope| e@);
        let ghost n = events@.len();
        while events.len() > 0
            invariant
                n == all.len(),
                events@.len() <= n,
                forall|j: int| 0 <= j < events@.len() ==> events@[j]@ == all[n - events@.len() + j],
                self.remaining() == start + all.subrange(0, n - events@.len()),
            decreases events@.len(),
        {
            let ghost k = n - events@.len();
            let ghost before = self.events@;
            assert(events@[0]@ == all[k]);
            let e = events.remove(0);
            assert(e@ == all[k]);
            self.events.push_back(e);
            assert(self.events@ == before.push(e));
            assert(self.remaining() =~= before.map_values(|e: EventEnvelope| e@).push(e@));
            assert(all.subrange(0, k + 1) =~= all.subrange(0, k).push(all[k]));
            assert(self.remaining() =~= start + all.subrange(0, n - events@.len()));
        }
        assert(all.subrange(0, n as int) =~= all);
    }

}

impl EventSource for MockEventSource {
    /// The next event, if any remains.
    fn next_event(&mut self) -> (r: Result<Option<EventEnvelope>, EventListenerError>)
        ensures
            old(self).remaining().len() == 0 ==> (r matches Ok(None) && final(self).remaining()
                == old(self).remaining()),
            old(self).remaining().len() > 0 ==> (r matches Ok(Some(e)) && e@ == old(
                self,
            ).remaining()[0] && final(self).remaining() == old(self).remaining().drop_first()),
    {
        let r = self.events.pop_front();
        assert(self.remaining() =~= if old(self).remaining().len() == 0 {
            old(self).remaining()
        } else {
            old(self).remaining().drop_first()
        });
        Ok(r)
    }
}

} // verus!
