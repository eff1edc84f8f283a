//! The capture adapter: keeps the first message and stops the loop.
use vstd::prelude::*;
use crate::handler::{lemma_uniform_push, uniform, ControlSignal, Handler, Invocation};
use crate::dispatch::{deliveries, listen_for_messages, live_len, source_outcome};
use crate::message::{SourceItem, Target, TransportError};

verus! {

/// A holder for a single message: written by the handler, read once when the
/// loop has stopped.
pub struct CaptureCell {
    value: Option<String>,
}

impl CaptureCell {
    /// The text in the cell, if any.
    pub closed spec fn held(&self) -> Option<Seq<char>> {
        match self.value {
            Some(content) => Some(content@),
            None => None,
        }
    }

    pub fn new() -> (cell: Self)
        ensures
            cell.held() is None,
    {
        CaptureCell { value: None }
    }

    /// Puts `content` into the cell.
    pub fn set(&mut self, content: String)
        ensures
            final(self).held() == Some(content@),
    {
        self.value = Some(content);
    }

    /// Takes the content out and leaves the cell empty.
    pub fn take(&mut self) -> (content: Option<String>)
        ensures
            final(self).held() is None,
            content is Some <==> old(self).held() is Some,
            content is Some ==> content->Some_0@ == old(self).held()->Some_0,
    {
        self.value.take()
    }
}

/// Why waiting for a message came to nothing.
#[derive(Debug, Clone, PartialEq, Eq)]
pub enum WaitError {
    /// The source failed before a message arrived.
    Transport(TransportError),
    /// The source ended and no message had matched.
    NoMessageReceived,
}

/// A handler that writes the content it is invoked with into its cell and
/// asks the loop to stop.
pub struct CaptureAdapter {
    cell: CaptureCell,
    seen: Ghost<Seq<Invocation>>,
}

impl CaptureAdapter {
    /// The text in the adapter's cell, if any.
    pub closed spec fn captured(&self) -> Option<Seq<char>> {
        self.cell.held()
    }

    pub fn new() -> (adapter: Self)
        ensures
            adapter.wf(),
            adapter.history() == Seq::<Invocation>::empty(),
            adapter.captured() is None,
    {
        CaptureAdapter { cell: CaptureCell::new(), seen: Ghost(Seq::empty()) }
    }

    /// Reads the cell, once and for all: the captured message, or the report
    /// that none was received.
    pub fn into_message(self) -> (message: Result<String, WaitError>)
        ensures
            match self.captured() {
                Some(content) => message is Ok && message->Ok_0@ == content,
                None => message == Err::<String, WaitError>(WaitError::NoMessageReceived),
            },
    {
        let mut cell = self.cell;
        match cell.take() {
            Some(content) => Ok(content),
            None => Err(WaitError::NoMessageReceived),
        }
    }
}

impl Handler for CaptureAdapter {
    /// The cell holds the content of the latest invocation, and every
    /// invocation has asked to stop.
    open spec fn wf(&self) -> bool {
        &&& self.captured() == if self.history().len() == 0 {
            None
        } else {
            Some(self.history().last().content)
        }
        &&& uniform(self.history(), ControlSignal::Stop)
    }

    closed spec fn history(&self) -> Seq<Invocation> {
        self.seen@
    }

    /// Captures `content` and asks the loop to stop.
    fn on_message(&mut self, content: String) -> (signal: ControlSignal)
        ensures
            signal == ControlSignal::Stop,
            final(self).captured() == Some(content@),
    {
        let ghost invocation = Invocation { content: content@, signal: ControlSignal::Stop };
        proof {
            lemma_uniform_push(self.seen@, content@, ControlSignal::Stop);
        }
        self.cell.set(content);
        self.seen = Ghost(self.seen@.push(invocation));
        ControlSignal::Stop
    }
}

/// The content of the first item that passes the target before the source
/// fails, if there is one.
pub open spec fn first_message(target: Target, items: Seq<SourceItem>) -> Option<Seq<char>> {
    let offered = deliveries(target, items.take(live_len(items)));
    if offered.len() > 0 {
        Some(offered[0])
    } else {
        None
    }
}

/// Waits for the first message of `target` in the stream `items` and returns
/// its content. Where the source fails before any message matched, the
/// failure is returned; where the stream ends without a match, the report is
/// `NoMessageReceived`. Whatever follows the first match is never looked at.
pub fn wait_for_message(target: Target, items: &Vec<SourceItem>) -> (message: Result<
    String,
    WaitError,
>)
    ensures
        match first_message(target, items@) {
            Some(content) => message is Ok && message->Ok_0@ == content,
            None => message == match source_outcome(items@) {
                Err(error) => Err::<String, WaitError>(WaitError::Transport(error)),
                Ok(_) => Err::<String, WaitError>(WaitError::NoMessageReceived),
            },
        },
{
    let mut adapter = CaptureAdapter::new();
    let listened = listen_for_messages(target, items, &mut adapter);
    proof {
        let made = adapter.history().skip(0);
        assert(made =~= adapter.history());
        if made.len() >= 2 {
            assert(made[0].signal == ControlSignal::Continue);
        }
        if made.len() == 1 {
            let offered = deliveries(target, items@.take(live_len(items@)));
            assert(crate::dispatch::contents(made)[0] == offered.take(1)[0]);
        }
    }
    match listened {
        Err(error) => Err(WaitError::Transport(error)),
        Ok(()) => adapter.into_message(),
    }
}

} // verus!
