//! The interface between the dispatch loop and whatever reacts to messages.
use vstd::prelude::*;

verus! {

/// What a handler tells the dispatch loop after an invocation.
#[derive(Clone, Copy, Debug, PartialEq, Eq, Structural)]
pub enum ControlSignal {
    /// Keep listening.
    Continue,
    /// Stop the loop; it ends in success.
    Stop,
}

/// One handler invocation, as contracts speak of it: the content that was
/// handed over and the signal that came back.
pub struct Invocation {
    pub content: Seq<char>,
    pub signal: ControlSignal,
}

/// Every invocation of `history` returned `signal`.
pub open spec fn uniform(history: Seq<Invocation>, signal: ControlSignal) -> bool {
    forall|i: int| 0 <= i < history.len() ==> (#[trigger] history[i]).signal == signal
}

/// One more invocation with the same signal keeps a history uniform.
pub proof fn lemma_uniform_push(history: Seq<Invocation>, content: Seq<char>, signal: ControlSignal)
    requires
        uniform(history, signal),
    ensures
        uniform(history.push(Invocation { content, signal }), signal),
{
}

/// A reaction to messages. The dispatch loop calls `on_message` once per
/// matching message, in delivery order, and never starts a call before the
/// previous one has returned.
pub trait Handler {
    /// The handler's own invariant.
    spec fn wf(&self) -> bool;

    /// The invocations on record, oldest first. Every invocation adds one.
    spec fn history(&self) -> Seq<Invocation>;

    fn on_message(&mut self, content: String) -> (signal: ControlSignal)
        requires
            old(self).wf(),
        ensures
            final(self).wf(),
            final(self).history() == old(self).history().push(
                Invocation { content: content@, signal },
            ),
    ;
}

} // verus!
