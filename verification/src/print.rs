//! The print adapter: emits every message and never stops the loop.
use vstd::prelude::*;
use crate::handler::{lemma_uniform_push, uniform, ControlSignal, Handler, Invocation};
use crate::dispatch::{contents, deliveries, live_len, session, source_outcome};
use crate::message::{SourceItem, Target, TransportError};

verus! {

/// The texts of a run of lines.
pub open spec fn texts(lines: Seq<String>) -> Seq<Seq<char>> {
    lines.map_values(|line: String| line@)
}

/// A handler that queues the content of every message as a line for the
/// host's output sink. The host takes the queued lines and writes them out.
/// Nothing is ever dropped or merged: a message delivered twice is emitted
/// twice.
pub struct PrintAdapter {
    lines: Vec<String>,
    seen: Ghost<Seq<Invocation>>,
}

impl PrintAdapter {
    /// The lines that wait to be written out, oldest first.
    pub closed spec fn pending(&self) -> Seq<Seq<char>> {
        texts(self.lines@)
    }

    pub fn new() -> (adapter: Self)
        ensures
            adapter.wf(),
            adapter.history() == Seq::<Invocation>::empty(),
            adapter.pending() == Seq::<Seq<char>>::empty(),
    {
        let adapter = PrintAdapter { lines: Vec::new(), seen: Ghost(Seq::empty()) };
        proof {
            assert(adapter.pending() =~= contents(adapter.history()));
            assert(adapter.pending() =~= Seq::<Seq<char>>::empty());
        }
        adapter
    }

    /// Hands the queued lines to the host, oldest first, and empties the
    /// queue. The history starts anew with it.
    pub fn take_lines(&mut self) -> (lines: Vec<String>)
        requires
            old(self).wf(),
        ensures
            final(self).wf(),
            texts(lines@) == old(self).pending(),
            final(self).pending() == Seq::<Seq<char>>::empty(),
            final(self).history() == Seq::<Invocation>::empty(),
    {
        let mut lines: Vec<String> = Vec::new();
        core::mem::swap(&mut lines, &mut self.lines);
        self.seen = Ghost(Seq::empty());
        proof {
            assert(self.pending() =~= contents(self.history()));
            assert(self.pending() =~= Seq::<Seq<char>>::empty());
        }
        lines
    }
}

impl Handler for PrintAdapter {
    /// The queue holds the content of every invocation of the history, and
    /// no invocation has asked to stop.
    open spec fn wf(&self) -> bool {
        &&& self.pending() == contents(self.history())
        &&& uniform(self.history(), ControlSignal::Continue)
    }

    /// The invocations made since the host last took the lines.
    closed spec fn history(&self) -> Seq<Invocation> {
        self.seen@
    }

    /// Queues `content` as one more line and keeps the loop listening.
    fn on_message(&mut self, content: String) -> (signal: ControlSignal)
        ensures
            signal == ControlSignal::Continue,
            final(self).pending() == old(self).pending().push(content@),
    {
        let ghost invocation = Invocation { content: content@, signal: ControlSignal::Continue };
        let ghost earlier = self.seen@;
        proof {
            lemma_uniform_push(earlier, content@, ControlSignal::Continue);
            assert(texts(self.lines@.push(content)) =~= texts(self.lines@).push(content@));
            assert(contents(earlier.push(invocation)) =~= contents(earlier).push(content@));
        }
        self.lines.push(content);
        self.seen = Ghost(earlier.push(invocation));
        ControlSignal::Continue
    }
}

/// A print adapter that has been through a run of the loop has queued the
/// content of every passing item that came before the first failure, each
/// once per delivery and in the order of delivery, and the run has ended as
/// the source did.
pub proof fn lemma_print_emits_every_delivery(
    target: Target,
    items: Seq<SourceItem>,
    before: PrintAdapter,
    after: PrintAdapter,
    result: Result<(), TransportError>,
)
    requires
        before.wf(),
        after.wf(),
        session(target, items, before.history(), after.history(), result),
    ensures
        after.pending() == before.pending() + deliveries(target, items.take(live_len(items))),
        result == source_outcome(items),
{
    let offered = deliveries(target, items.take(live_len(items)));
    let made = after.history().skip(before.history().len() as int);
    assert(offered.take(offered.len() as int) =~= offered);
    assert(after.history() =~= after.history().take(before.history().len() as int) + made);
    assert(contents(before.history() + made) =~= contents(before.history()) + contents(made));
}

} // verus!
