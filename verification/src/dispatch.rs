//! The dispatch loop: subscribe, filter, invoke the handler, stop or go on.
//!
//! `DispatchLoop` is the loop as a state machine that a host drives one
//! source item at a time. `listen_for_messages` drives it over a stream that
//! is already at hand.
use vstd::prelude::*;
use crate::handler::{ControlSignal, Handler, Invocation};
use crate::message::{content_of, passes, SourceItem, Target, TransportError, Subscription};

verus! {

/// Where a dispatch loop stands. The two stopped states are terminal.
#[derive(Debug, Clone, PartialEq, Eq)]
pub enum LoopState {
    /// The subscription has been asked for and not yet confirmed.
    Subscribing,
    /// Items of the source are being taken.
    Listening,
    /// The handler asked to stop, or the source ended.
    StoppedSuccess,
    /// The source failed.
    StoppedError(TransportError),
}

/// The state that follows `state` when `item` arrives, where `signal` is what
/// the handler returned if it was invoked for the item.
pub open spec fn next_state(
    state: LoopState,
    target: Target,
    item: SourceItem,
    signal: ControlSignal,
) -> LoopState {
    if !(state is Listening) {
        state
    } else if item is Failure {
        LoopState::StoppedError(item->Failure_0)
    } else if passes(target, item) && signal == ControlSignal::Stop {
        LoopState::StoppedSuccess
    } else {
        LoopState::Listening
    }
}

/// The contents of the items that pass the target, in the order of the items.
pub open spec fn deliveries(target: Target, items: Seq<SourceItem>) -> Seq<Seq<char>>
    decreases items.len(),
{
    if items.len() == 0 {
        Seq::empty()
    } else {
        let earlier = deliveries(target, items.drop_last());
        if passes(target, items.last()) {
            earlier.push(content_of(items.last()))
        } else {
            earlier
        }
    }
}

/// `at` is the place of the first failure among `items`.
pub open spec fn fails_first_at(items: Seq<SourceItem>, at: int) -> bool {
    &&& 0 <= at < items.len()
    &&& items[at] is Failure
    &&& forall|j: int| 0 <= j < at ==> !(#[trigger] items[j] is Failure)
}

/// How many items come before the first failure: all of them where the
/// source never fails.
pub open spec fn live_len(items: Seq<SourceItem>) -> int {
    if exists|at: int| fails_first_at(items, at) {
        choose|at: int| fails_first_at(items, at)
    } else {
        items.len() as int
    }
}

/// How the source itself ends: with its first failure, or quietly.
pub open spec fn source_outcome(items: Seq<SourceItem>) -> Result<(), TransportError> {
    if live_len(items) < items.len() {
        Err(items[live_len(items)]->Failure_0)
    } else {
        Ok(())
    }
}

/// The contents of a run of invocations.
pub open spec fn contents(invocations: Seq<Invocation>) -> Seq<Seq<char>> {
    invocations.map_values(|invocation: Invocation| invocation.content)
}

/// Whether a run of invocations ended with the handler asking to stop.
pub open spec fn stopped(made: Seq<Invocation>) -> bool {
    made.len() > 0 && made.last().signal == ControlSignal::Stop
}

/// What one run of the loop over `items` does to a handler whose history was
/// `before` and is `after`, and what the run returns.
///
/// The handler is invoked with the contents of the passing items that come
/// before the first failure, in their order, until it asks to stop; it asks so
/// at most once, with its last invocation. A run that the handler stopped
/// succeeds. Any other run has handed over every such content and ends as the
/// source does.
pub open spec fn session(
    target: Target,
    items: Seq<SourceItem>,
    before: Seq<Invocation>,
    after: Seq<Invocation>,
    result: Result<(), TransportError>,
) -> bool {
    let offered = deliveries(target, items.take(live_len(items)));
    let made = after.skip(before.len() as int);
    &&& before.len() <= after.len()
    &&& after.take(before.len() as int) == before
    &&& made.len() <= offered.len()
    &&& contents(made) == offered.take(made.len() as int)
    &&& forall|i: int| 0 <= i < made.len() - 1 ==> (#[trigger] made[i]).signal == ControlSignal::Continue
    &&& if stopped(made) {
        result is Ok
    } else {
        &&& made.len() == offered.len()
        &&& result == source_outcome(items)
    }
}

proof fn lemma_deliveries_push(target: Target, items: Seq<SourceItem>, item: SourceItem)
    ensures
        deliveries(target, items.push(item)) == if passes(target, item) {
            deliveries(target, items).push(content_of(item))
        } else {
            deliveries(target, items)
        },
{
    assert(items.push(item).drop_last() =~= items);
}

proof fn lemma_deliveries_prefix(target: Target, items: Seq<SourceItem>, shorter: int, longer: int)
    requires
        0 <= shorter <= longer <= items.len(),
    ensures
        deliveries(target, items.take(shorter)).len() <= deliveries(target, items.take(longer)).len(),
        deliveries(target, items.take(longer)).take(
            deliveries(target, items.take(shorter)).len() as int,
        ) == deliveries(target, items.take(shorter)),
    decreases longer - shorter,
{
    let short = deliveries(target, items.take(shorter));
    if shorter == longer {
        assert(short.take(short.len() as int) =~= short);
    } else {
        lemma_deliveries_prefix(target, items, shorter, longer - 1);
        assert(items.take(longer) =~= items.take(longer - 1).push(items[longer - 1]));
        lemma_deliveries_push(target, items.take(longer - 1), items[longer - 1]);
        let mid = deliveries(target, items.take(longer - 1));
        assert(deliveries(target, items.take(longer)).take(short.len() as int) =~= mid.take(
            short.len() as int,
        ));
    }
}

proof fn lemma_first_failure(items: Seq<SourceItem>, at: int)
    requires
        fails_first_at(items, at),
    ensures
        live_len(items) == at,
{
    let chosen = choose|c: int| fails_first_at(items, c);
    assert(fails_first_at(items, chosen));
    if chosen < at {
        assert(!(items[chosen] is Failure));
    }
    if at < chosen {
        assert(!(items[at] is Failure));
    }
}

proof fn lemma_no_failure_before(items: Seq<SourceItem>, upto: int)
    requires
        0 <= upto <= items.len(),
        forall|j: int| 0 <= j < upto ==> !(#[trigger] items[j] is Failure),
    ensures
        upto <= live_len(items) <= items.len(),
{
    if exists|at: int| fails_first_at(items, at) {
        let chosen = choose|c: int| fails_first_at(items, c);
        assert(fails_first_at(items, chosen));
        if chosen < upto {
            assert(!(items[chosen] is Failure));
        }
    }
}

/// The selection and the projection that together give the deliveries.
pub open spec fn passing(target: Target) -> spec_fn(SourceItem) -> bool {
    |item: SourceItem| passes(target, item)
}

/// The deliveries of a stream are the contents of its passing items and
/// nothing else: none is added, dropped, merged or moved.
pub proof fn lemma_deliveries_are_the_passing_items(target: Target, items: Seq<SourceItem>)
    ensures
        deliveries(target, items) == items.filter(passing(target)).map_values(
            |item: SourceItem| content_of(item),
        ),
    decreases items.len(),
{
    let project = |item: SourceItem| content_of(item);
    if items.len() == 0 {
        reveal(Seq::filter);
        assert(deliveries(target, items) =~= items.filter(passing(target)).map_values(project));
    } else {
        let earlier = items.drop_last();
        lemma_deliveries_are_the_passing_items(target, earlier);
        earlier.lemma_filter_push(items.last(), passing(target));
        assert(earlier.push(items.last()) =~= items);
        assert(deliveries(target, items) =~= items.filter(passing(target)).map_values(project));
    }
}

/// Where no item passes the target, nothing is delivered.
pub proof fn lemma_nothing_passes_nothing_delivered(target: Target, items: Seq<SourceItem>)
    requires
        forall|i: int| 0 <= i < items.len() ==> !passes(target, #[trigger] items[i]),
    ensures
        deliveries(target, items).len() == 0,
    decreases items.len(),
{
    if items.len() > 0 {
        lemma_nothing_passes_nothing_delivered(target, items.drop_last());
    }
}

/// A run over a stream in which no item's sender and channel match the
/// target never invokes the handler.
pub proof fn lemma_no_match_no_invocation(
    target: Target,
    items: Seq<SourceItem>,
    before: Seq<Invocation>,
    after: Seq<Invocation>,
    result: Result<(), TransportError>,
)
    requires
        session(target, items, before, after, result),
        forall|i: int| 0 <= i < items.len() ==> !passes(target, #[trigger] items[i]),
    ensures
        after == before,
        result == source_outcome(items),
{
    let live = items.take(live_len(items));
    if exists|at: int| fails_first_at(items, at) {
        let at = choose|at: int| fails_first_at(items, at);
        assert(fails_first_at(items, at));
    }
    assert forall|i: int| 0 <= i < live.len() implies !passes(target, #[trigger] live[i]) by {
        assert(live[i] == items[i]);
    }
    lemma_nothing_passes_nothing_delivered(target, live);
    assert(after =~= after.take(before.len() as int));
}

/// The handler is invoked in the order of delivery: the i-th invocation of a
/// run is made with the content of the i-th passing item.
pub proof fn lemma_invocations_follow_deliveries(
    target: Target,
    items: Seq<SourceItem>,
    before: Seq<Invocation>,
    after: Seq<Invocation>,
    result: Result<(), TransportError>,
    i: int,
)
    requires
        session(target, items, before, after, result),
        0 <= i < after.len() - before.len(),
    ensures
        i < deliveries(target, items.take(live_len(items))).len(),
        after[before.len() + i].content == deliveries(target, items.take(live_len(items)))[i],
{
    let offered = deliveries(target, items.take(live_len(items)));
    let made = after.skip(before.len() as int);
    assert(contents(made)[i] == offered.take(made.len() as int)[i]);
}

/// A handler that asks to stop whenever it is invoked is invoked at most
/// once in a run: what is delivered after the first match is never seen.
pub proof fn lemma_stop_ends_the_run(
    target: Target,
    items: Seq<SourceItem>,
    before: Seq<Invocation>,
    after: Seq<Invocation>,
    result: Result<(), TransportError>,
)
    requires
        session(target, items, before, after, result),
        forall|i: int|
            before.len() <= i < after.len() ==> (#[trigger] after[i]).signal
                == ControlSignal::Stop,
    ensures
        after.len() <= before.len() + 1,
{
    let made = after.skip(before.len() as int);
    if made.len() >= 2 {
        assert(made[0].signal == ControlSignal::Continue);
        assert(made[0] == after[before.len() as int]);
    }
}

/// The dispatch loop as a state machine. The host subscribes, reports each
/// item of the source with `offer`, and reads `outcome` to learn when and how
/// the loop has ended.
pub struct DispatchLoop {
    target: Target,
    state: LoopState,
}

impl DispatchLoop {
    /// The target whose messages are dispatched.
    pub closed spec fn target(&self) -> Target {
        self.target
    }

    /// Where the loop stands.
    pub closed spec fn state(&self) -> LoopState {
        self.state
    }

    /// A loop for `target`, about to subscribe.
    pub fn new(target: Target) -> (created: Self)
        ensures
            created.target() == target,
            created.state() is Subscribing,
    {
        DispatchLoop { target, state: LoopState::Subscribing }
    }

    /// What to subscribe to.
    pub fn subscription(&self) -> (subscription: Subscription)
        ensures
            subscription.recipient@ == self.target().channel@,
            subscription.kind == crate::message::GIFT_WRAP_KIND,
            subscription.limit == 0,
    {
        self.target.subscription()
    }

    /// The source has confirmed the subscription: a subscribing loop starts to
    /// listen. In any other state nothing changes.
    pub fn subscribed(&mut self)
        ensures
            final(self).target() == old(self).target(),
            final(self).state() == if old(self).state() is Subscribing {
                LoopState::Listening
            } else {
                old(self).state()
            },
    {
        if let LoopState::Subscribing = self.state {
            self.state = LoopState::Listening;
        }
    }

    /// The source has failed: a loop that has not stopped yet stops with the
    /// error. A stopped loop stays as it is.
    pub fn source_failed(&mut self, error: TransportError)
        ensures
            final(self).target() == old(self).target(),
            final(self).state() == if old(self).state() is Subscribing || old(self).state() is Listening {
                LoopState::StoppedError(error)
            } else {
                old(self).state()
            },
    {
        match self.state {
            LoopState::Subscribing | LoopState::Listening => {
                self.state = LoopState::StoppedError(error);
            },
            _ => {},
        }
    }

    /// The source has ended without a failure: a listening loop stops in
    /// success. In any other state nothing changes.
    pub fn source_ended(&mut self)
        ensures
            final(self).target() == old(self).target(),
            final(self).state() == if old(self).state() is Listening {
                LoopState::StoppedSuccess
            } else {
                old(self).state()
            },
    {
        if let LoopState::Listening = self.state {
            self.state = LoopState::StoppedSuccess;
        }
    }

    /// Whether the loop takes items. A loop that has stopped has no further
    /// use for its subscription: the host gives it up.
    pub fn is_listening(&self) -> (listening: bool)
        ensures
            listening == (self.state() is Listening),
    {
        match self.state {
            LoopState::Listening => true,
            _ => false,
        }
    }

    /// How the loop has ended, or `None` while it has not.
    pub fn outcome(&self) -> (outcome: Option<Result<(), TransportError>>)
        ensures
            outcome == match self.state() {
                LoopState::StoppedSuccess => Some(Ok::<(), TransportError>(())),
                LoopState::StoppedError(error) => Some(Err::<(), TransportError>(error)),
                _ => None,
            },
    {
        match &self.state {
            LoopState::StoppedSuccess => Some(Ok(())),
            LoopState::StoppedError(error) => Some(Err(error.clone())),
            _ => None,
        }
    }

    /// One step of the loop. A listening loop invokes the handler exactly when
    /// the item passes the target, with the item's content, and stops in
    /// success when the handler says so; a failure stops it with the error;
    /// anything else is skipped. A loop that is not listening ignores the item.
    /// Where the handler is not invoked it is left untouched.
    pub fn offer<H: Handler>(&mut self, item: &SourceItem, handler: &mut H)
        requires
            old(handler).wf(),
        ensures
            final(handler).wf(),
            final(self).target() == old(self).target(),
            old(self).state() is Listening && passes(old(self).target(), *item) ==> {
                &&& final(handler).history().len() == old(handler).history().len() + 1
                &&& final(handler).history().drop_last() == old(handler).history()
                &&& final(handler).history().last().content == content_of(*item)
                &&& final(self).state() == next_state(
                    old(self).state(),
                    old(self).target(),
                    *item,
                    final(handler).history().last().signal,
                )
            },
            !(old(self).state() is Listening && passes(old(self).target(), *item)) ==> {
                &&& *final(handler) == *old(handler)
                &&& final(self).state() == next_state(
                    old(self).state(),
                    old(self).target(),
                    *item,
                    ControlSignal::Continue,
                )
            },
    {
        if !self.is_listening() {
            return ;
        }
        match item {
            SourceItem::Failure(error) => {
                self.state = LoopState::StoppedError(error.clone());
            },
            SourceItem::Other => {},
            SourceItem::Event(event) => {
                if let Some(message) = event.decode() {
                    if self.target.accepts(message) {
                        let ghost before = handler.history();
                        let signal = handler.on_message(message.content.clone());
                        proof {
                            assert(handler.history().drop_last() =~= before);
                        }
                        match signal {
                            ControlSignal::Stop => {
                                self.state = LoopState::StoppedSuccess;
                            },
                            ControlSignal::Continue => {},
                        }
                    }
                }
            },
        }
    }
}

/// Runs the dispatch loop for `target` over the stream `items`: subscribes,
/// offers the items in order until the loop stops, and treats the end of the
/// stream as the end of the source. Returns the source's failure if the loop
/// met one, and success otherwise.
pub fn listen_for_messages<H: Handler>(
    target: Target,
    items: &Vec<SourceItem>,
    handler: &mut H,
) -> (result: Result<(), TransportError>)
    requires
        old(handler).wf(),
    ensures
        final(handler).wf(),
        session(target, items@, old(handler).history(), final(handler).history(), result),
        final(handler).history() == old(handler).history() ==> *final(handler) == *old(handler),
{
    let ghost before = handler.history();
    let ghost untouched = *handler;
    let mut dispatch = DispatchLoop::new(target);
    dispatch.subscribed();
    let mut i: usize = 0;
    while i < items.len() && dispatch.is_listening()
        invariant
            0 <= i <= items.len(),
            handler.wf(),
            dispatch.target() == target,
            !(dispatch.state() is Subscribing),
            before.len() <= handler.history().len(),
            handler.history().take(before.len() as int) == before,
            handler.history() == before ==> *handler == untouched,
            dispatch.state() is StoppedError ==> {
                &&& fails_first_at(items@, i - 1)
                &&& dispatch.state()->StoppedError_0 == items@[i - 1]->Failure_0
            },
            !(dispatch.state() is StoppedError) ==> forall|j: int|
                0 <= j < i ==> !(#[trigger] items@[j] is Failure),
            contents(handler.history().skip(before.len() as int)) == deliveries(
                target,
                items@.take(if dispatch.state() is StoppedError { i - 1 } else { i as int }),
            ),
            forall|k: int|
                0 <= k < handler.history().len() - before.len() - 1 ==> (
                #[trigger] handler.history().skip(before.len() as int)[k]).signal
                    == ControlSignal::Continue,
            dispatch.state() is StoppedSuccess <==> stopped(
                handler.history().skip(before.len() as int),
            ),
        decreases items.len() - i,
    {
        let ghost earlier = handler.history();
        dispatch.offer(&items[i], handler);
        proof {
            let item = items@[i as int];
            let now = handler.history();
            assert(items@.take(i + 1) =~= items@.take(i as int).push(item));
            lemma_deliveries_push(target, items@.take(i as int), item);
            if passes(target, item) {
                assert(now =~= earlier.push(now.last()));
                assert(now.take(before.len() as int) =~= earlier.take(before.len() as int));
                assert(now.skip(before.len() as int) =~= earlier.skip(before.len() as int).push(
                    now.last(),
                ));
                assert(contents(now.skip(before.len() as int)) =~= contents(
                    earlier.skip(before.len() as int),
                ).push(content_of(item)));
            }
        }
        i += 1;
    }
    dispatch.source_ended();
    let result = match dispatch.outcome() {
        Some(outcome) => outcome,
        None => Ok(()),
    };
    proof {
        let offered = deliveries(target, items@.take(live_len(items@)));
        if dispatch.state() is StoppedError {
            lemma_first_failure(items@, i - 1);
            assert(offered.take(offered.len() as int) =~= offered);
        } else {
            lemma_no_failure_before(items@, i as int);
            lemma_deliveries_prefix(target, items@, i as int, live_len(items@));
            if i == items@.len() {
                assert(items@.take(i as int) =~= items@);
            }
        }
    }
    result
}

} // verus!
