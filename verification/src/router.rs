//! DEX event handlers behind one interface, and the router that hands each
//! log to the handlers that recognise it.
use vstd::prelude::*;

use crate::event::{EventEnvelope, EventKind, EventListenerError, EventModel};
use crate::pancake_v2::event::{v2_parse_result, PancakeV2Event, PancakeV2EventError};
use crate::pancake_v2::handler::{v2_handled, PancakeV2EventHandler};
use crate::pancake_v3::event::{v3_parse_result, PancakeV3Event, PancakeV3EventError};
use crate::pancake_v3::handler::{v3_handled, PancakeV3EventHandler};
use crate::repository::PoolStores;

verus! {

/// A handler of the logs of one DEX.
pub trait DexEventHandler {
    /// The handler's own invariant.
    spec fn ready(&self) -> bool;

    /// The logs the handler takes.
    spec fn recognizes(&self, e: EventModel) -> bool;

    /// What handling the log `e` does: the handler goes from `self` to
    /// `after`, the stores from `before` to `now`, and `r` comes back.
    spec fn handled(
        &self,
        after: &Self,
        before: PoolStores,
        now: PoolStores,
        e: EventModel,
        r: Option<Result<(), EventListenerError>>,
    ) -> bool;

    /// Handles a log; `None` where the handler's pool arithmetic would
    /// overflow, and then nothing changes.
    fn handle_envelope(&mut self, stores: &mut PoolStores, envelope: &EventEnvelope) -> (r: Option<
        Result<(), EventListenerError>,
    >)
        requires
            old(self).ready(),
        ensures
            final(self).ready(),
            old(self).handled(final(self), *old(stores), *final(stores), envelope@, r),
    ;

    fn matches(&self, envelope: &EventEnvelope) -> (r: bool)
        requires
            self.ready(),
        ensures
            r == self.recognizes(envelope@),
    ;
}

impl DexEventHandler for PancakeV2EventHandler {
    open spec fn ready(&self) -> bool {
        self.token_graph.wf()
    }

    open spec fn recognizes(&self, e: EventModel) -> bool {
        e.kind == EventKind::PairCreated || e.kind == EventKind::Mint || e.kind == EventKind::Swap
            || e.kind == EventKind::Burn || e.kind == EventKind::Sync
    }

    /// Always handles the log; see `PancakeV2EventHandler::handle_event`.
    open spec fn handled(
        &self,
        after: &Self,
        before: PoolStores,
        now: PoolStores,
        e: EventModel,
        r: Option<Result<(), EventListenerError>>,
    ) -> bool {
        r matches Some(x) && forall|parsed: Result<PancakeV2Event, PancakeV2EventError>|
            #[trigger] v2_parse_result(e, parsed) ==> match parsed {
                Ok(ev) => v2_handled(
                    self.config,
                    self.token_whitelist,
                    self.token_graph,
                    after.token_graph,
                    before.contents(),
                    now.contents(),
                    ev,
                    x,
                ),
                Err(PancakeV2EventError::Unsupported) => x is Ok && after.token_graph
                    == self.token_graph && now.contents() == before.contents(),
                Err(_) => x matches Err(EventListenerError::Decode(_)) && after.token_graph
                    == self.token_graph && now.contents() == before.contents(),
            }
    }

    fn handle_envelope(&mut self, stores: &mut PoolStores, envelope: &EventEnvelope) -> (r: Option<
        Result<(), EventListenerError>,
    >) {
        Some(self.handle_event(stores, envelope))
    }

    fn matches(&self, envelope: &EventEnvelope) -> (r: bool) {
        PancakeV2EventHandler::matches(self, envelope)
    }
}

impl DexEventHandler for PancakeV3EventHandler {
    open spec fn ready(&self) -> bool {
        self.tokens.wf()
    }

    open spec fn recognizes(&self, e: EventModel) -> bool {
        self.token_map().contains_key(e.address)
    }

    /// See `PancakeV3EventHandler::handle_event_checked`.
    open spec fn handled(
        &self,
        after: &Self,
        before: PoolStores,
        now: PoolStores,
        e: EventModel,
        r: Option<Result<(), EventListenerError>>,
    ) -> bool {
        &&& after.config == self.config
        &&& after.token_map() == self.token_map()
        &&& r is None ==> !self.envelope_fits(before.repository@, e) && now.contents()
            == before.contents()
        &&& self.envelope_fits(before.repository@, e) ==> r is Some
        &&& r matches Some(x) ==> forall|parsed: Result<PancakeV3Event, PancakeV3EventError>|
            #[trigger] v3_parse_result(e, parsed) ==> match parsed {
                Ok(ev) => v3_handled(
                    self.config.chain_id,
                    self.config.dex@,
                    self.token_map(),
                    before.contents(),
                    now.contents(),
                    e.address,
                    ev,
                    x,
                ),
                Err(PancakeV3EventError::MissingTopics) => x is Ok && now.contents()
                    == before.contents(),
                Err(_) => x matches Err(EventListenerError::Decode(_)) && now.contents()
                    == before.contents(),
            }
    }

    fn handle_envelope(&mut self, stores: &mut PoolStores, envelope: &EventEnvelope) -> (r: Option<
        Result<(), EventListenerError>,
    >) {
        self.handle_event_checked(stores, envelope)
    }

    fn matches(&self, envelope: &EventEnvelope) -> (r: bool) {
        PancakeV3EventHandler::matches(self, envelope)
    }
}

/// One handler's turn at the log `e`: a handler that recognises the log
/// handles it; one that does not is left as it was, the stores too, and the
/// turn counts as a success.
pub open spec fn turn<H: DexEventHandler>(
    before: H,
    after: H,
    s0: PoolStores,
    s1: PoolStores,
    e: EventModel,
    r: Option<Result<(), EventListenerError>>,
) -> bool {
    if before.recognizes(e) {
        before.handled(&after, s0, s1, e, r)
    } else {
        after == before && s1 == s0 && r == Some(Ok::<(), EventListenerError>(()))
    }
}

/// A dispatch of the log `e` over the handlers `before`, which become
/// `after`, with the stores going from `s0` to `s1` and `r` coming back.
/// `trace` holds the stores before each turn that was taken and after the
/// last: the handlers take their turns in order, each turn but the last ends
/// in `Some(Ok(()))`, the last one gives `r`, a dispatch that stops before
/// the end stops at a turn that did not succeed, and the handlers after it
/// are not touched.
pub open spec fn dispatch_run<H: DexEventHandler>(
    before: Seq<H>,
    after: Seq<H>,
    s0: PoolStores,
    s1: PoolStores,
    trace: Seq<PoolStores>,
    e: EventModel,
    r: Option<Result<(), EventListenerError>>,
) -> bool {
    let k = trace.len() - 1;
    &&& 1 <= trace.len() <= before.len() + 1
    &&& after.len() == before.len()
    &&& trace[0] == s0
    &&& trace[k] == s1
    &&& forall|j: int|
        0 <= j < k - 1 ==> #[trigger] turn(
            before[j],
            after[j],
            trace[j],
            trace[j + 1],
            e,
            Some(Ok::<(), EventListenerError>(())),
        )
    &&& k == 0 ==> r == Some(Ok::<(), EventListenerError>(()))
    &&& k > 0 ==> turn(before[k - 1], after[k - 1], trace[k - 1], trace[k], e, r)
    &&& k < before.len() ==> r != Some(Ok::<(), EventListenerError>(()))
    &&& forall|j: int| k <= j < before.len() ==> #[trigger] after[j] == before[j]
}

/// A handler registered after others is offered a log last: a dispatch over
/// `hs` followed by `h` is a dispatch over `hs` that either stopped there
/// (and `h` was not touched) or got through all of them, followed then by
/// `h`'s turn.
pub proof fn lemma_dispatch_registered_last<H: DexEventHandler>(
    hs: Seq<H>,
    h: H,
    after: Seq<H>,
    s0: PoolStores,
    s1: PoolStores,
    trace: Seq<PoolStores>,
    e: EventModel,
    r: Option<Result<(), EventListenerError>>,
)
    requires
        dispatch_run(hs.push(h), after, s0, s1, trace, e, r),
    ensures
        trace.len() <= hs.len() + 1 ==> dispatch_run(hs, after.drop_last(), s0, s1, trace, e, r)
            && after.last() == h,
        trace.len() == hs.len() + 2 ==> dispatch_run(
            hs,
            after.drop_last(),
            s0,
            trace[hs.len() as int],
            trace.drop_last(),
            e,
            Some(Ok::<(), EventListenerError>(())),
        ) && turn(h, after.last(), trace[hs.len() as int], s1, e, r),
{
    let all = hs.push(h);
    let n = hs.len() as int;
    let k = trace.len() - 1;
    let a2 = after.drop_last();
    if k <= n {
        assert(after[n] == all[n]);
        assert forall|j: int| 0 <= j < k - 1 implies #[trigger] turn(
            hs[j],
            a2[j],
            trace[j],
            trace[j + 1],
            e,
            Some(Ok::<(), EventListenerError>(())),
        ) by {
            assert(all[j] == hs[j] && a2[j] == after[j]);
            assert(turn(all[j], after[j], trace[j], trace[j + 1], e, Some(Ok::<(), EventListenerError>(()))));
        }
        if k > 0 {
            assert(all[k - 1] == hs[k - 1] && a2[k - 1] == after[k - 1]);
        }
        assert forall|j: int| k <= j < n implies #[trigger] a2[j] == hs[j] by {
            assert(after[j] == all[j]);
        }
    } else {
        assert(k == n + 1);
        let t2 = trace.drop_last();
        assert forall|j: int| 0 <= j < n - 1 implies #[trigger] turn(
            hs[j],
            a2[j],
            t2[j],
            t2[j + 1],
            e,
            Some(Ok::<(), EventListenerError>(())),
        ) by {
            assert(all[j] == hs[j] && a2[j] == after[j]);
            assert(turn(all[j], after[j], trace[j], trace[j + 1], e, Some(Ok::<(), EventListenerError>(()))));
        }
        if n > 0 {
            let l = n - 1;
            assert(all[l] == hs[l] && a2[l] == after[l]);
            assert(turn(all[l], after[l], trace[l], trace[l + 1], e, Some(Ok::<(), EventListenerError>(()))));
        }
        assert(all[n] == h);
    }
}

/// Hands each log to every handler that recognises it, in order.
#[derive(Debug)]
pub struct DexEventRouter<H> {
    pub handlers: Vec<H>,
}

impl<H: DexEventHandler> DexEventRouter<H> {
    /// Every handler's invariant holds.
    pub open spec fn ready(&self) -> bool {
        forall|i: int| 0 <= i < self.handlers@.len() ==> (#[trigger] self.handlers@[i]).ready()
    }

    pub fn new() -> (r: DexEventRouter<H>)
        ensures
            r.handlers@.len() == 0,
    {
        DexEventRouter { handlers: Vec::new() }
    }

    pub fn with_handlers(handlers: Vec<H>) -> (r: DexEventRouter<H>)
        ensures
            r.handlers@ == handlers@,
    {
        DexEventRouter { handlers }
    }

    /// Adds a handler after the others.
    pub fn register(&mut self, handler: H)
        ensures
            final(self).handlers@ == old(self).handlers@.push(handler),
    {
        self.handlers.push(handler);
    }

    /// Hands the log to each handler that recognises it, in order, and
    /// stops at the first error; `None` when a handler's arithmetic would
    /// overflow. Handlers that do not recognise the log are not touched.
    pub fn dispatch(&mut self, stores: &mut PoolStores, envelope: &EventEnvelope) -> (r: Option<
        Result<(), EventListenerError>,
    >)
        requires
            old(self).ready(),
        ensures
            final(self).ready(),
            exists|trace: Seq<PoolStores>|
                #[trigger] dispatch_run(
                    old(self).handlers@,
                    final(self).handlers@,
                    *old(stores),
                    *final(stores),
                    trace,
                    envelope@,
                    r,
                ),
            (forall|i: int|
                0 <= i < old(self).handlers@.len() ==> !(#[trigger] old(self).handlers@[i]).recognizes(
                    envelope@,
                )) ==> r == Some(Ok::<(), EventListenerError>(())) && *final(stores) == *old(stores),
    {
        let n = self.handlers.len();
        let mut i: usize = 0;
        let ghost mut trace: Seq<PoolStores> = seq![*stores];
        while i < n
            invariant
                n == self.handlers@.len(),
                n == old(self).handlers@.len(),
                i <= n,
                self.ready(),
                trace.len() == i + 1,
                trace[0] == *old(stores),
                trace[i as int] == *stores,
                forall|j: int|
                    0 <= j < i ==> #[trigger] turn(
                        old(self).handlers@[j],
                        self.handlers@[j],
                        trace[j],
                        trace[j + 1],
                        envelope@,
                        Some(Ok::<(), EventListenerError>(())),
                    ),
                forall|k: int| i <= k < n ==> #[trigger] self.handlers@[k] == old(self).handlers@[k],
                (forall|k: int|
                    0 <= k < i ==> !(#[trigger] old(self).handlers@[k]).recognizes(envelope@))
                    ==> *stores == *old(stores),
            decreases n - i,
        {
            let ghost h0 = self.handlers@;
            let ghost t0 = trace;
            if self.handlers[i].matches(envelope) {
                let outcome = self.handlers[i].handle_envelope(stores, envelope);
                proof {
                    trace = trace.push(*stores);
                    assert(self.handlers@ == h0.update(i as int, self.handlers@[i as int]));
                    assert(turn(
                        old(self).handlers@[i as int],
                        self.handlers@[i as int],
                        trace[i as int],
                        trace[i + 1],
                        envelope@,
                        outcome,
                    ));
                    assert forall|j: int| 0 <= j < i implies #[trigger] turn(
                        old(self).handlers@[j],
                        self.handlers@[j],
                        trace[j],
                        trace[j + 1],
                        envelope@,
                        Some(Ok::<(), EventListenerError>(())),
                    ) by {
                        assert(self.handlers@[j] == h0[j]);
                        assert(trace[j] == t0[j] && trace[j + 1] == t0[j + 1]);
                        assert(turn(old(self).handlers@[j], h0[j], t0[j], t0[j + 1], envelope@, Some(Ok::<(), EventListenerError>(()))));
                    }
                }
                match outcome {
                    Some(Ok(u)) => {
                        proof {
                            assert(u == ());
                            assert(outcome == Some(Ok::<(), EventListenerError>(())));
                            assert(turn(
                                old(self).handlers@[i as int],
                                self.handlers@[i as int],
                                trace[i as int],
                                trace[i + 1],
                                envelope@,
                                Some(Ok::<(), EventListenerError>(())),
                            ));
                        }
                    },
                    Some(Err(e)) => {
                        proof {
                            assert(dispatch_run(
                                old(self).handlers@,
                                self.handlers@,
                                *old(stores),
                                *stores,
                                trace,
                                envelope@,
                                outcome,
                            ));
                        }
                        return Some(Err(e));
                    },
                    None => {
                        proof {
                            assert(dispatch_run(
                                old(self).handlers@,
                                self.handlers@,
                                *old(stores),
                                *stores,
                                trace,
                                envelope@,
                                outcome,
                            ));
                        }
                        return None;
                    },
                }
            } else {
                proof {
                    trace = trace.push(*stores);
                    assert(turn(
                        old(self).handlers@[i as int],
                        self.handlers@[i as int],
                        trace[i as int],
                        trace[i + 1],
                        envelope@,
                        Some(Ok::<(), EventListenerError>(())),
                    ));
                    assert forall|j: int| 0 <= j < i implies #[trigger] turn(
                        old(self).handlers@[j],
                        self.handlers@[j],
                        trace[j],
                        trace[j + 1],
                        envelope@,
                        Some(Ok::<(), EventListenerError>(())),
                    ) by {
                        assert(trace[j] == t0[j] && trace[j + 1] == t0[j + 1]);
                        assert(turn(old(self).handlers@[j], h0[j], t0[j], t0[j + 1], envelope@, Some(Ok::<(), EventListenerError>(()))));
                    }
                }
            }
            i = i + 1;
        }
        proof {
            if n > 0 {
                let l = n - 1;
                assert(turn(
                    old(self).handlers@[l],
                    self.handlers@[l],
                    trace[l],
                    trace[l + 1],
                    envelope@,
                    Some(Ok::<(), EventListenerError>(())),
                ));
            }
            assert(dispatch_run(
                old(self).handlers@,
                self.handlers@,
                *old(stores),
                *stores,
                trace,
                envelope@,
                Some(Ok::<(), EventListenerError>(())),
            ));
        }
        Some(Ok(()))
    }
}

} // verus!
