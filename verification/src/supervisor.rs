//! The process supervisor: at most one child process at a time, replaced on
//! every message.
//!
//! The supervisor decides what is to happen to processes and in which order;
//! the host kills, spawns and writes, and reports what spawning gave.
use vstd::prelude::*;
use vstd::slice::slice_to_vec;
use vstd::utf8::encode_utf8;
use crate::handler::{lemma_uniform_push, uniform, ControlSignal, Handler, Invocation};

verus! {

/// A child process that the host has started, named by its process id. The
/// host keeps the pipe to the child's input under the same id.
#[derive(Clone, Copy, Debug, PartialEq, Eq, Structural)]
pub struct ProcessHandle {
    pub pid: u32,
}

/// The record of the one process that may be running.
#[derive(Debug, Clone, PartialEq, Eq)]
pub struct SupervisorSlot {
    pub handle: Option<ProcessHandle>,
}

/// How a stream of a child process is connected.
#[derive(Clone, Copy, Debug, PartialEq, Eq, Structural)]
pub enum StdioMode {
    /// Through a pipe that the host holds.
    Piped,
    /// To the host's own stream.
    Inherit,
}

/// Everything the host needs to start a child process and feed it.
#[derive(Debug, Clone, PartialEq, Eq)]
pub struct SpawnRequest {
    pub program: String,
    pub args: Vec<String>,
    pub stdin: StdioMode,
    pub stdout: StdioMode,
    pub stderr: StdioMode,
    /// The bytes to write into the child's input once it runs.
    pub input: Vec<u8>,
}

pub struct SpawnRequestView {
    pub program: Seq<char>,
    pub args: Seq<Seq<char>>,
    pub stdin: StdioMode,
    pub stdout: StdioMode,
    pub stderr: StdioMode,
    pub input: Seq<u8>,
}

impl View for SpawnRequest {
    type V = SpawnRequestView;

    open spec fn view(&self) -> SpawnRequestView {
        SpawnRequestView {
            program: self.program@,
            args: self.args@.map_values(|arg: String| arg@),
            stdin: self.stdin,
            stdout: self.stdout,
            stderr: self.stderr,
            input: self.input@,
        }
    }
}

/// Why a child process could not be started.
#[derive(Debug, Clone, PartialEq, Eq)]
pub struct SpawnError {
    pub reason: String,
}

/// What the host reports after an attempt to spawn.
#[derive(Debug, Clone, PartialEq, Eq)]
pub enum SpawnOutcome {
    /// The child runs. `stdin_open` tells whether the pipe to its input could
    /// be had.
    Started { pid: u32, stdin_open: bool },
    /// The child could not be started.
    Failed(SpawnError),
}

/// Something the supervisor asks the host to do.
#[derive(Debug, Clone, PartialEq, Eq)]
pub enum HostRequest {
    /// Request the termination of a process. That the process has already
    /// exited is no failure.
    Kill(ProcessHandle),
    /// Start a child process and report the outcome.
    Spawn(SpawnRequest),
    /// Write `input` into the process's input pipe and close the pipe,
    /// without holding up the dispatch loop.
    Write { handle: ProcessHandle, input: Vec<u8> },
}

pub enum HostRequestView {
    Kill(ProcessHandle),
    Spawn(SpawnRequestView),
    Write { handle: ProcessHandle, input: Seq<u8> },
}

impl View for HostRequest {
    type V = HostRequestView;

    open spec fn view(&self) -> HostRequestView {
        match self {
            HostRequest::Kill(handle) => HostRequestView::Kill(*handle),
            HostRequest::Spawn(request) => HostRequestView::Spawn(request@),
            HostRequest::Write { handle, input } => HostRequestView::Write {
                handle: *handle,
                input: input@,
            },
        }
    }
}

/// The views of a run of requests.
pub open spec fn views(requests: Seq<HostRequest>) -> Seq<HostRequestView> {
    requests.map_values(|request: HostRequest| request@)
}

/// The request that runs `command` through the shell: `sh -c command`, input
/// piped, output and error streams the host's own.
pub open spec fn shell_request(command: Seq<char>, input: Seq<u8>) -> SpawnRequestView {
    SpawnRequestView {
        program: "sh"@,
        args: seq!["-c"@, command],
        stdin: StdioMode::Piped,
        stdout: StdioMode::Inherit,
        stderr: StdioMode::Inherit,
        input,
    }
}

/// The requests that empty a slot: a kill for the handle in it, if any.
pub open spec fn retire_requests(slot: Option<ProcessHandle>) -> Seq<HostRequestView> {
    match slot {
        Some(handle) => seq![HostRequestView::Kill(handle)],
        None => Seq::empty(),
    }
}

/// The requests that a message gives rise to: first the slot is emptied, then
/// a fresh process is asked for, fed with the message's bytes.
pub open spec fn message_requests(
    slot: Option<ProcessHandle>,
    command: Seq<char>,
    content: Seq<char>,
) -> Seq<HostRequestView> {
    retire_requests(slot).push(HostRequestView::Spawn(shell_request(command, encode_utf8(content))))
}

/// The slot after the outcome of a spawn has been recorded.
pub open spec fn slot_after(outcome: SpawnOutcome) -> Option<ProcessHandle> {
    match outcome {
        SpawnOutcome::Started { pid, .. } => Some(ProcessHandle { pid }),
        SpawnOutcome::Failed(_) => None,
    }
}

/// The requests that follow the outcome of a spawn. Whatever the slot still
/// holds is retired first. A child whose input pipe is open gets the input; one
/// without a pipe is asked to terminate; a failed spawn asks for nothing.
pub open spec fn outcome_requests(
    slot: Option<ProcessHandle>,
    input: Seq<u8>,
    outcome: SpawnOutcome,
) -> Seq<HostRequestView> {
    match outcome {
        SpawnOutcome::Started { pid, stdin_open } => retire_requests(slot).push(
            if stdin_open {
                HostRequestView::Write { handle: ProcessHandle { pid }, input }
            } else {
                HostRequestView::Kill(ProcessHandle { pid })
            },
        ),
        SpawnOutcome::Failed(_) => retire_requests(slot),
    }
}

/// Empties the slot and returns the handle that was in it: the process whose
/// termination is to be requested.
pub fn kill_existing(slot: &mut SupervisorSlot) -> (retired: Option<ProcessHandle>)
    ensures
        retired == old(slot).handle,
        final(slot).handle is None,
{
    slot.handle.take()
}

/// The request to run `cmd` through the shell and to pipe `message` into it.
pub fn spawn_and_pipe(cmd: &str, message: Vec<u8>) -> (request: SpawnRequest)
    ensures
        request@ == shell_request(cmd@, message@),
{
    let mut args: Vec<String> = Vec::new();
    args.push("-c".to_owned());
    args.push(cmd.to_owned());
    let request = SpawnRequest {
        program: "sh".to_owned(),
        args,
        stdin: StdioMode::Piped,
        stdout: StdioMode::Inherit,
        stderr: StdioMode::Inherit,
        input: message,
    };
    proof {
        assert(request@.args =~= seq!["-c"@, cmd@]);
    }
    request
}

/// Retires the process in the slot and asks for a fresh one that runs `cmd`
/// and is fed the bytes of `msg`. The kill, where there is one, comes before
/// the spawn. The slot is left empty until the outcome is recorded.
pub fn handle_message(slot: &mut SupervisorSlot, cmd: &str, msg: String) -> (requests: Vec<
    HostRequest,
>)
    ensures
        final(slot).handle is None,
        views(requests@) == message_requests(old(slot).handle, cmd@, msg@),
{
    let mut requests: Vec<HostRequest> = Vec::new();
    if let Some(handle) = kill_existing(slot) {
        requests.push(HostRequest::Kill(handle));
    }
    let bytes = slice_to_vec(msg.as_str().as_bytes());
    requests.push(HostRequest::Spawn(spawn_and_pipe(cmd, bytes)));
    proof {
        assert(views(requests@) =~= message_requests(old(slot).handle, cmd@, msg@));
    }
    requests
}

/// Records the outcome of the spawn that `request` asked for. A started
/// child is installed in the slot, after whatever the slot still held has
/// been retired; a failed spawn leaves the slot empty.
pub fn record_outcome(slot: &mut SupervisorSlot, request: SpawnRequest, outcome: SpawnOutcome) -> (requests:
    Vec<HostRequest>)
    ensures
        final(slot).handle == slot_after(outcome),
        views(requests@) == outcome_requests(old(slot).handle, request.input@, outcome),
{
    let mut requests: Vec<HostRequest> = Vec::new();
    if let Some(handle) = kill_existing(slot) {
        requests.push(HostRequest::Kill(handle));
    }
    match outcome {
        SpawnOutcome::Started { pid, stdin_open } => {
            let handle = ProcessHandle { pid };
            slot.handle = Some(handle);
            if stdin_open {
                requests.push(HostRequest::Write { handle, input: request.input });
            } else {
                requests.push(HostRequest::Kill(handle));
            }
        },
        SpawnOutcome::Failed(_) => {},
    }
    proof {
        assert(views(requests@) =~= outcome_requests(old(slot).handle, request.input@, outcome));
    }
    requests
}

/// Something that happened to a process, as contracts speak of it.
pub enum ProcessEvent {
    /// The termination of a process was requested.
    KillRequested(ProcessHandle),
    /// A fresh process was asked for.
    SpawnRequested,
    /// A started process was put into the slot.
    Installed(ProcessHandle),
}

/// The processes that have been installed and whose termination has not been
/// requested since.
pub open spec fn live(journal: Seq<ProcessEvent>) -> Set<ProcessHandle>
    decreases journal.len(),
{
    if journal.len() == 0 {
        Set::empty()
    } else {
        let earlier = live(journal.drop_last());
        match journal.last() {
            ProcessEvent::Installed(handle) => earlier.insert(handle),
            ProcessEvent::KillRequested(handle) => earlier.remove(handle),
            ProcessEvent::SpawnRequested => earlier,
        }
    }
}

/// No process is live.
pub open spec fn idle(journal: Seq<ProcessEvent>) -> bool {
    forall|handle: ProcessHandle| !live(journal).contains(handle)
}

/// Every spawn was asked for, and every process installed, at a moment when
/// no process was live.
pub open spec fn orderly(journal: Seq<ProcessEvent>) -> bool
    decreases journal.len(),
{
    journal.len() == 0 || {
        &&& orderly(journal.drop_last())
        &&& journal.last() is SpawnRequested || journal.last() is Installed ==> idle(
            journal.drop_last(),
        )
    }
}

/// What emptying a slot adds to the journal.
pub open spec fn retire_events(slot: Option<ProcessHandle>) -> Seq<ProcessEvent> {
    match slot {
        Some(handle) => seq![ProcessEvent::KillRequested(handle)],
        None => Seq::empty(),
    }
}

/// What a message adds to the journal.
pub open spec fn message_events(slot: Option<ProcessHandle>) -> Seq<ProcessEvent> {
    retire_events(slot).push(ProcessEvent::SpawnRequested)
}

/// What the outcome of a spawn adds to the journal.
pub open spec fn outcome_events(slot: Option<ProcessHandle>, outcome: SpawnOutcome) -> Seq<
    ProcessEvent,
> {
    match outcome {
        SpawnOutcome::Started { pid, stdin_open } => {
            let installed = retire_events(slot).push(ProcessEvent::Installed(ProcessHandle { pid }));
            if stdin_open {
                installed
            } else {
                installed.push(ProcessEvent::KillRequested(ProcessHandle { pid }))
            }
        },
        SpawnOutcome::Failed(_) => retire_events(slot),
    }
}

proof fn lemma_journal_push(journal: Seq<ProcessEvent>, event: ProcessEvent)
    ensures
        live(journal.push(event)) == match event {
            ProcessEvent::Installed(handle) => live(journal).insert(handle),
            ProcessEvent::KillRequested(handle) => live(journal).remove(handle),
            ProcessEvent::SpawnRequested => live(journal),
        },
        orderly(journal.push(event)) == (orderly(journal) && (event is SpawnRequested
            || event is Installed ==> idle(journal))),
{
    assert(journal.push(event).drop_last() =~= journal);
}

/// Emptying a slot that holds every live process leaves none live.
proof fn lemma_retire(journal: Seq<ProcessEvent>, slot: Option<ProcessHandle>)
    requires
        orderly(journal),
        forall|handle: ProcessHandle| live(journal).contains(handle) ==> slot == Some(handle),
    ensures
        orderly(journal + retire_events(slot)),
        idle(journal + retire_events(slot)),
{
    match slot {
        Some(handle) => {
            assert(journal + retire_events(slot) =~= journal.push(
                ProcessEvent::KillRequested(handle),
            ));
            lemma_journal_push(journal, ProcessEvent::KillRequested(handle));
        },
        None => {
            assert(journal + retire_events(slot) =~= journal);
        },
    }
}

/// The handler that runs one command per message. It keeps the slot, queues
/// its requests for the host in the order in which they are to be carried
/// out, and never stops the loop.
pub struct Supervisor {
    command: String,
    slot: SupervisorSlot,
    outbox: Vec<HostRequest>,
    journal: Ghost<Seq<ProcessEvent>>,
    seen: Ghost<Seq<Invocation>>,
}

impl Supervisor {
    /// The shell command that every message runs.
    pub closed spec fn command(&self) -> Seq<char> {
        self.command@
    }

    /// The handle in the slot, if any.
    pub closed spec fn slot(&self) -> Option<ProcessHandle> {
        self.slot.handle
    }

    /// The requests that the host has not taken yet, oldest first.
    pub closed spec fn pending(&self) -> Seq<HostRequestView> {
        views(self.outbox@)
    }

    /// Everything that has happened to processes so far, oldest first.
    pub closed spec fn journal(&self) -> Seq<ProcessEvent> {
        self.journal@
    }

    /// A supervisor for `command`, with an empty slot.
    pub fn new(command: String) -> (supervisor: Self)
        ensures
            supervisor.wf(),
            supervisor.command() == command@,
            supervisor.slot() is None,
            supervisor.pending() == Seq::<HostRequestView>::empty(),
            supervisor.journal() == Seq::<ProcessEvent>::empty(),
            supervisor.history() == Seq::<Invocation>::empty(),
    {
        let supervisor = Supervisor {
            command,
            slot: SupervisorSlot { handle: None },
            outbox: Vec::new(),
            journal: Ghost(Seq::empty()),
            seen: Ghost(Seq::empty()),
        };
        proof {
            assert(supervisor.pending() =~= Seq::<HostRequestView>::empty());
        }
        supervisor
    }

    /// The handle in the slot, if any.
    pub fn running(&self) -> (handle: Option<ProcessHandle>)
        ensures
            handle == self.slot(),
    {
        self.slot.handle
    }

    /// Hands the queued requests to the host, oldest first, and empties the
    /// queue.
    pub fn take_requests(&mut self) -> (requests: Vec<HostRequest>)
        requires
            old(self).wf(),
        ensures
            final(self).wf(),
            views(requests@) == old(self).pending(),
            final(self).pending() == Seq::<HostRequestView>::empty(),
            final(self).command() == old(self).command(),
            final(self).slot() == old(self).slot(),
            final(self).journal() == old(self).journal(),
            final(self).history() == old(self).history(),
    {
        let mut requests: Vec<HostRequest> = Vec::new();
        core::mem::swap(&mut requests, &mut self.outbox);
        proof {
            assert(self.pending() =~= Seq::<HostRequestView>::empty());
        }
        requests
    }

    /// Records what the host reports of the spawn that `request` asked for,
    /// and queues what follows from it.
    pub fn spawn_finished(&mut self, request: SpawnRequest, outcome: SpawnOutcome)
        requires
            old(self).wf(),
        ensures
            final(self).wf(),
            final(self).slot() == slot_after(outcome),
            final(self).pending() == old(self).pending() + outcome_requests(
                old(self).slot(),
                request.input@,
                outcome,
            ),
            final(self).journal() == old(self).journal() + outcome_events(
                old(self).slot(),
                outcome,
            ),
            final(self).command() == old(self).command(),
            final(self).history() == old(self).history(),
    {
        let ghost earlier = self.journal@;
        let ghost slot = self.slot.handle;
        let ghost queued = self.outbox@;
        let ghost events = outcome_events(slot, outcome);
        proof {
            lemma_retire(earlier, slot);
            let retired = earlier + retire_events(slot);
            match outcome {
                SpawnOutcome::Started { pid, stdin_open } => {
                    let handle = ProcessHandle { pid };
                    let installed = retired.push(ProcessEvent::Installed(handle));
                    lemma_journal_push(retired, ProcessEvent::Installed(handle));
                    if stdin_open {
                        assert(earlier + events =~= installed);
                    } else {
                        lemma_journal_push(installed, ProcessEvent::KillRequested(handle));
                        assert(earlier + events =~= installed.push(
                            ProcessEvent::KillRequested(handle),
                        ));
                    }
                },
                SpawnOutcome::Failed(_) => {
                    assert(earlier + events =~= retired);
                },
            }
        }
        let mut requests = record_outcome(&mut self.slot, request, outcome);
        self.outbox.append(&mut requests);
        self.journal = Ghost(earlier + events);
        proof {
            assert(views(self.outbox@) =~= views(queued) + outcome_requests(
                slot,
                request.input@,
                outcome,
            ));
        }
    }

    /// At any instant at most one process is live, and it is the one that the
    /// slot holds.
    pub proof fn lemma_at_most_one_process(&self, first: ProcessHandle, second: ProcessHandle)
        requires
            self.wf(),
            live(self.journal()).contains(first),
            live(self.journal()).contains(second),
        ensures
            first == second,
            self.slot() == Some(first),
    {
    }
}

impl Handler for Supervisor {
    /// The journal is orderly, a live process is in the slot, and no
    /// invocation has ever asked to stop.
    open spec fn wf(&self) -> bool {
        &&& orderly(self.journal())
        &&& forall|handle: ProcessHandle|
            live(self.journal()).contains(handle) ==> self.slot() == Some(handle)
        &&& uniform(self.history(), ControlSignal::Continue)
    }

    closed spec fn history(&self) -> Seq<Invocation> {
        self.seen@
    }

    /// Retires the process in the slot, asks for a fresh one fed with
    /// `content`, and keeps the loop listening.
    fn on_message(&mut self, content: String) -> (signal: ControlSignal)
        ensures
            signal == ControlSignal::Continue,
            final(self).slot() is None,
            final(self).pending() == old(self).pending() + message_requests(
                old(self).slot(),
                old(self).command(),
                content@,
            ),
            final(self).journal() == old(self).journal() + message_events(old(self).slot()),
            final(self).command() == old(self).command(),
    {
        let ghost invocation = Invocation { content: content@, signal: ControlSignal::Continue };
        let ghost earlier = self.journal@;
        let ghost slot = self.slot.handle;
        let ghost queued = self.outbox@;
        proof {
            lemma_uniform_push(self.seen@, content@, ControlSignal::Continue);
            lemma_retire(earlier, slot);
            lemma_journal_push(earlier + retire_events(slot), ProcessEvent::SpawnRequested);
            assert(earlier + message_events(slot) =~= (earlier + retire_events(slot)).push(
                ProcessEvent::SpawnRequested,
            ));
        }
        let mut requests = handle_message(&mut self.slot, self.command.as_str(), content);
        self.outbox.append(&mut requests);
        self.journal = Ghost(earlier + message_events(slot));
        self.seen = Ghost(self.seen@.push(invocation));
        proof {
            assert(views(self.outbox@) =~= views(queued) + message_requests(
                slot,
                self.command@,
                content@,
            ));
        }
        ControlSignal::Continue
    }
}

/// No spawn is asked for while a process is live: at the moment of every
/// spawn request in an orderly journal, each process installed before has had
/// its termination requested.
pub proof fn lemma_spawn_finds_no_process(journal: Seq<ProcessEvent>, at: int)
    requires
        orderly(journal),
        0 <= at < journal.len(),
        journal[at] is SpawnRequested,
    ensures
        idle(journal.take(at)),
    decreases journal.len(),
{
    if at == journal.len() - 1 {
        assert(journal.take(at) =~= journal.drop_last());
    } else {
        lemma_spawn_finds_no_process(journal.drop_last(), at);
        assert(journal.drop_last().take(at) =~= journal.take(at));
    }
}

/// Of two messages delivered back to back, the process started for the first
/// is asked to terminate before the process for the second is asked for.
pub proof fn lemma_kill_precedes_spawn(
    pid: u32,
    stdin_open: bool,
    command: Seq<char>,
    second: Seq<char>,
)
    ensures
        ({
            let slot = slot_after(SpawnOutcome::Started { pid, stdin_open });
            let requests = message_requests(slot, command, second);
            &&& requests.len() == 2
            &&& requests[0] == HostRequestView::Kill(ProcessHandle { pid })
            &&& requests[1] == HostRequestView::Spawn(
                shell_request(command, encode_utf8(second)),
            )
        }),
{
}

/// A failed spawn leaves the slot empty, and the next message asks for a
/// fresh process with nothing to retire first.
pub proof fn lemma_failed_spawn_is_retried(error: SpawnError, command: Seq<char>, next: Seq<char>)
    ensures
        slot_after(SpawnOutcome::Failed(error)) is None,
        message_requests(slot_after(SpawnOutcome::Failed(error)), command, next) == seq![
            HostRequestView::Spawn(shell_request(command, encode_utf8(next))),
        ],
{
    assert(message_requests(None, command, next) =~= seq![
        HostRequestView::Spawn(shell_request(command, encode_utf8(next))),
    ]);
}

} // verus!
