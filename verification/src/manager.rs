use crate::events::{EventView, ProcessEvent};
use crate::registry::Registry;
use crate::streamer::{
    actions, emitted, fresh, lemma_actions_ignore_mark, lemma_exit_once, live_prefix, published,
    step, ActionView, LogStreamer, Read, StreamerView,
};
use vstd::prelude::*;
use vstd::string::*;

verus! {

/// What starting the executable gave: the handle of the new process group
/// and whichever of its two output pipes could be taken from it.
#[derive(Debug, PartialEq, Eq)]
pub struct Spawned<H, O, E> {
    pub handle: H,
    pub stdout: Option<O>,
    pub stderr: Option<E>,
}

/// Both output pipes of a launched process, ready to be streamed.
#[derive(Debug, PartialEq, Eq)]
pub struct Pipes<O, E> {
    pub stdout: O,
    pub stderr: E,
}

/// A successful launch: the pipes and the streamer that will drain them.
#[derive(Debug, PartialEq, Eq)]
pub struct Launched<O, E> {
    pub streamer: LogStreamer,
    pub pipes: Pipes<O, E>,
}

/// Why a launch was refused or failed.
#[derive(Debug, PartialEq, Eq)]
pub enum LaunchError {
    /// The identifier is live in the registry.
    AlreadyRunning,
    /// The executable could not be started; the text says why.
    Spawn(String),
    /// Every mark that tells launches apart has been handed out.
    Exhausted,
    /// The process runs, but its standard output could not be taken.
    NoStdout,
    /// The process runs, but its standard error could not be taken.
    NoStderr,
}

/// A launch that did not succeed.
///
/// `orphan` holds the handle of a process that was started but could not
/// be registered. It is tracked nowhere: the caller has to terminate it.
#[derive(Debug, PartialEq, Eq)]
pub struct LaunchFailure<H> {
    pub error: LaunchError,
    pub orphan: Option<H>,
}

/// Why a termination did not succeed.
#[derive(Debug, PartialEq, Eq)]
pub enum KillError {
    /// The identifier has no entry in the registry.
    NoRunningProcess,
    /// The entry was removed, but signalling the process group failed; the
    /// text says why. The process is no longer tracked.
    Signal(String),
}

/// One live process: its handle and the mark of the launch that started
/// it. No two launches of one manager bear the same mark.
pub struct Launch<H> {
    pub mark: u64,
    pub handle: H,
}

/// The mathematical value of a `ProcessManager`.
pub struct ManagerView<H> {
    /// The live processes, by identifier.
    pub live: Map<Seq<char>, Launch<H>>,
    /// How many launches have been registered so far; the next launch
    /// bears this number as its mark.
    pub launches: u64,
}

impl<H> ManagerView<H> {
    /// Whether a process is live under `id`.
    pub open spec fn is_live(self, id: Seq<char>) -> bool {
        self.live.dom().contains(id)
    }

    /// Whether the process live under `id` is the one that the launch
    /// bearing `mark` started.
    pub open spec fn owns(self, id: Seq<char>, mark: u64) -> bool {
        self.live.dom().contains(id) && self.live[id].mark == mark
    }

    /// Finitely many processes are live, and each bears a mark that has
    /// been handed out. Every manager is well formed.
    pub open spec fn well_formed(self) -> bool {
        &&& self.live.dom().finite()
        &&& forall|id: Seq<char>|
            self.live.dom().contains(id) ==> (#[trigger] self.live[id]).mark < self.launches
    }
}

/// How a launch ends, without what it carries.
pub enum LaunchOutcome {
    Started,
    AlreadyRunning,
    SpawnFailed,
    Exhausted,
    NoStdout,
    NoStderr,
}

/// Whether a launch under `id` registers the process: it was started, the
/// identifier is free, and a mark is left for it.
pub open spec fn registers<H, O, E>(
    state: ManagerView<H>,
    id: Seq<char>,
    spawn: Result<Spawned<H, O, E>, String>,
) -> bool {
    spawn is Ok && !state.is_live(id) && state.launches < u64::MAX
}

/// How a launch under `id` ends, given the manager and what spawning gave.
///
/// A live identifier is refused before anything else is looked at. A
/// process that was started under a free identifier but lacks a pipe is
/// reported as a failure.
pub open spec fn launch_outcome<H, O, E>(
    state: ManagerView<H>,
    id: Seq<char>,
    spawn: Result<Spawned<H, O, E>, String>,
) -> LaunchOutcome {
    if state.is_live(id) {
        LaunchOutcome::AlreadyRunning
    } else {
        match spawn {
            Err(_) => LaunchOutcome::SpawnFailed,
            Ok(spawned) => if state.launches == u64::MAX {
                LaunchOutcome::Exhausted
            } else if spawned.stdout is None {
                LaunchOutcome::NoStdout
            } else if spawned.stderr is None {
                LaunchOutcome::NoStderr
            } else {
                LaunchOutcome::Started
            },
        }
    }
}

/// The manager after a launch under `id`.
///
/// Every process that the launch registers enters under `id` with the
/// next mark, also one that lacks a pipe: it runs, and stays addressable so
/// that it can be terminated. Nothing else changes the manager.
pub open spec fn after_launch<H, O, E>(
    state: ManagerView<H>,
    id: Seq<char>,
    spawn: Result<Spawned<H, O, E>, String>,
) -> ManagerView<H> {
    if registers(state, id, spawn) {
        ManagerView {
            live: state.live.insert(
                id,
                Launch { mark: state.launches, handle: spawn->Ok_0.handle },
            ),
            launches: (state.launches + 1) as u64,
        }
    } else {
        state
    }
}

/// The manager after a termination for `id`: the entry is gone, whether or
/// not it was there.
pub open spec fn after_removal<H>(state: ManagerView<H>, id: Seq<char>) -> ManagerView<H> {
    ManagerView { live: state.live.remove(id), launches: state.launches }
}

/// The manager after the streamer of the launch bearing `mark` has
/// concluded for `id`: the entry is gone if it is that launch's own.
/// The entry of any other launch under `id` stays.
pub open spec fn after_conclusion<H>(state: ManagerView<H>, id: Seq<char>, mark: u64) -> ManagerView<
    H,
> {
    if state.owns(id, mark) {
        after_removal(state, id)
    } else {
        state
    }
}

/// What a termination for `id` returns before anything is signalled: the
/// handle under `id`, or the error that nothing runs under it.
pub open spec fn kill_result<H>(state: ManagerView<H>, id: Seq<char>) -> Result<H, KillError> {
    if state.is_live(id) {
        Ok(state.live[id].handle)
    } else {
        Err(KillError::NoRunningProcess)
    }
}

/// The manager after carrying out what the streamer of the launch under
/// `id` bearing `mark` asked for: forwarding leaves it alone, concluding
/// removes that launch's entry.
pub open spec fn after_actions<H>(
    state: ManagerView<H>,
    id: Seq<char>,
    mark: u64,
    actions: Seq<ActionView>,
) -> ManagerView<H>
    decreases actions.len(),
{
    if actions.len() == 0 {
        state
    } else {
        let next = match actions[0] {
            ActionView::Conclude => after_conclusion(state, id, mark),
            _ => state,
        };
        after_actions(next, id, mark, actions.drop_first())
    }
}

/// What the sink sees of the streamer of the launch under `id` bearing
/// `mark` over a run of reads.
pub open spec fn published_by(id: Seq<char>, mark: u64, reads: Seq<Read>) -> Seq<EventView> {
    published(id, actions(fresh(id, mark), reads))
}

impl LaunchError {
    /// The error as text for the caller.
    pub fn message(&self) -> (res: String)
        ensures
            res@ == (match self {
                LaunchError::AlreadyRunning => "Process is already running"@,
                LaunchError::Spawn(reason) => reason@,
                LaunchError::Exhausted => "Too many launches"@,
                LaunchError::NoStdout => "get stdout error"@,
                LaunchError::NoStderr => "get stderr error"@,
            }),
    {
        match self {
            LaunchError::AlreadyRunning => String::from_str("Process is already running"),
            LaunchError::Spawn(reason) => reason.clone(),
            LaunchError::Exhausted => String::from_str("Too many launches"),
            LaunchError::NoStdout => String::from_str("get stdout error"),
            LaunchError::NoStderr => String::from_str("get stderr error"),
        }
    }
}

impl KillError {
    /// What a termination comes to, from what signalling the process
    /// group gave: success, or the failure with its reason.
    pub fn signal_outcome(signalled: Result<(), String>) -> (res: Result<(), KillError>)
        ensures
            res == (match signalled {
                Ok(_) => Ok::<(), KillError>(()),
                Err(reason) => Err::<(), KillError>(KillError::Signal(reason)),
            }),
    {
        match signalled {
            Ok(_) => Ok(()),
            Err(reason) => Err(KillError::Signal(reason)),
        }
    }

    /// The error as text for the caller.
    pub fn message(&self) -> (res: String)
        ensures
            res@ == (match self {
                KillError::NoRunningProcess => "No running process found"@,
                KillError::Signal(reason) => reason@,
            }),
    {
        match self {
            KillError::NoRunningProcess => String::from_str("No running process found"),
            KillError::Signal(reason) => reason.clone(),
        }
    }
}

/// The supervision core: the registry of live processes and the decisions
/// of launching, terminating and querying them.
///
/// It starts, signals and reads nothing itself. Its owner does that, and
/// keeps the manager under exclusive access for the length of one call.
pub struct ProcessManager<H> {
    registry: Registry<Launch<H>>,
    launches: u64,
}

impl<H> View for ProcessManager<H> {
    type V = ManagerView<H>;

    closed spec fn view(&self) -> ManagerView<H> {
        ManagerView { live: self.registry@, launches: self.launches }
    }
}

impl<H> ProcessManager<H> {
    /// Every live process bears a mark that has been handed out.
    #[verifier::type_invariant]
    spec fn marks_handed_out(&self) -> bool {
        forall|id: Seq<char>|
            self.registry@.dom().contains(id) ==> (#[trigger] self.registry@[id]).mark
                < self.launches
    }

    /// A manager with no live process and no launch behind it.
    pub fn new() -> (res: Self)
        ensures
            res@.live == Map::<Seq<char>, Launch<H>>::empty(),
            res@.launches == 0,
            res@.well_formed(),
    {
        ProcessManager { registry: Registry::new(), launches: 0 }
    }

    /// Whether `id` currently has a live entry.
    pub fn is_running(&self, id: &str) -> (res: bool)
        ensures
            res == self@.is_live(id@),
            self@.well_formed(),
    {
        proof {
            use_type_invariant(self);
        }
        self.registry.contains(id)
    }

    /// Whether a launch under `id` can go ahead: refused exactly when `id`
    /// is live. To be asked before the executable is started.
    pub fn check_available(&self, id: &str) -> (res: Result<(), LaunchError>)
        ensures
            res == (if self@.is_live(id@) {
                Err::<(), LaunchError>(LaunchError::AlreadyRunning)
            } else {
                Ok::<(), LaunchError>(())
            }),
            self@.well_formed(),
    {
        proof {
            use_type_invariant(self);
        }
        if self.registry.contains(id) {
            Err(LaunchError::AlreadyRunning)
        } else {
            Ok(())
        }
    }

    /// Completes a launch under `id` with what spawning gave.
    ///
    /// On success the process is registered under the next mark and the
    /// caller gets its pipes with a fresh streamer that bears the same
    /// mark. A live `id` is refused and the registry left alone; a process
    /// that was started all the same comes back as the failure's orphan,
    /// and so does one for which no mark is left. A spawn failure changes
    /// nothing. A process that lacks a pipe is registered and reported as
    /// a failure.
    pub fn run_program<O, E>(&mut self, id: String, spawn: Result<Spawned<H, O, E>, String>) -> (res:
        Result<Launched<O, E>, LaunchFailure<H>>)
        ensures
            final(self)@ == after_launch(old(self)@, id@, spawn),
            final(self)@.well_formed(),
            match launch_outcome(old(self)@, id@, spawn) {
                LaunchOutcome::Started => res matches Ok(launched) && launched.streamer@ == fresh(
                    id@,
                    old(self)@.launches,
                ) && Some(launched.pipes.stdout) == spawn->Ok_0.stdout && Some(
                    launched.pipes.stderr,
                ) == spawn->Ok_0.stderr,
                LaunchOutcome::AlreadyRunning => res matches Err(failure) && failure.error
                    == LaunchError::AlreadyRunning && failure.orphan == (match spawn {
                    Ok(spawned) => Some(spawned.handle),
                    Err(_) => None,
                }),
                LaunchOutcome::SpawnFailed => res matches Err(failure) && failure.error
                    == LaunchError::Spawn(spawn->Err_0) && failure.orphan is None,
                LaunchOutcome::Exhausted => res matches Err(failure) && failure.error
                    == LaunchError::Exhausted && failure.orphan == Some(spawn->Ok_0.handle),
                LaunchOutcome::NoStdout => res matches Err(failure) && failure.error
                    == LaunchError::NoStdout && failure.orphan is None,
                LaunchOutcome::NoStderr => res matches Err(failure) && failure.error
                    == LaunchError::NoStderr && failure.orphan is None,
            },
    {
        proof {
            use_type_invariant(&*self);
        }
        if self.registry.contains(id.as_str()) {
            let orphan = match spawn {
                Ok(spawned) => Some(spawned.handle),
                Err(_) => None,
            };
            return Err(LaunchFailure { error: LaunchError::AlreadyRunning, orphan });
        }
        let spawned = match spawn {
            Ok(spawned) => spawned,
            Err(reason) => {
                return Err(LaunchFailure { error: LaunchError::Spawn(reason), orphan: None });
            },
        };
        let Spawned { handle, stdout, stderr } = spawned;
        if self.launches == u64::MAX {
            return Err(LaunchFailure { error: LaunchError::Exhausted, orphan: Some(handle) });
        }
        let mark = self.launches;
        let streamer = LogStreamer::new(id.clone(), mark);
        let mut registry: Registry<Launch<H>> = Registry::new();
        core::mem::swap(&mut self.registry, &mut registry);
        let _ = registry.insert(id, Launch { mark, handle });
        self.launches = mark + 1;
        core::mem::swap(&mut self.registry, &mut registry);
        let stdout = match stdout {
            Some(pipe) => pipe,
            None => {
                return Err(LaunchFailure { error: LaunchError::NoStdout, orphan: None });
            },
        };
        let stderr = match stderr {
            Some(pipe) => pipe,
            None => {
                return Err(LaunchFailure { error: LaunchError::NoStderr, orphan: None });
            },
        };
        Ok(Launched { streamer, pipes: Pipes { stdout, stderr } })
    }

    /// Takes `id` out of the registry for termination.
    ///
    /// For a live `id` the entry is removed at once and its handle comes
    /// back: the caller signals the whole process group through it and
    /// waits for that to complete. An absent `id` is an error, and nothing
    /// changes.
    pub fn kill_program(&mut self, id: &str) -> (res: Result<H, KillError>)
        ensures
            final(self)@ == after_removal(old(self)@, id@),
            final(self)@.well_formed(),
            res == kill_result(old(self)@, id@),
    {
        proof {
            use_type_invariant(&*self);
        }
        let mut registry: Registry<Launch<H>> = Registry::new();
        core::mem::swap(&mut self.registry, &mut registry);
        let removed = registry.remove(id);
        core::mem::swap(&mut self.registry, &mut registry);
        match removed {
            Some(launch) => Ok(launch.handle),
            None => Err(KillError::NoRunningProcess),
        }
    }

    /// Ends the life of a launch after its streamer has concluded.
    ///
    /// Removes the entry under the streamer's identifier if it is that of
    /// the streamer's own launch, and hands out what was removed. Where a
    /// termination has removed the entry already, or a later launch has
    /// taken the identifier since, the registry is left as it is. Either
    /// way the exit notification for the sink comes back.
    pub fn conclude(&mut self, streamer: &LogStreamer) -> (res: (Option<H>, ProcessEvent))
        ensures
            final(self)@ == after_conclusion(old(self)@, streamer@.id, streamer@.mark),
            final(self)@.well_formed(),
            res.0 == (if old(self)@.owns(streamer@.id, streamer@.mark) {
                Some(old(self)@.live[streamer@.id].handle)
            } else {
                None::<H>
            }),
            res.1@ == (EventView::Exited { id: streamer@.id }),
    {
        proof {
            use_type_invariant(&*self);
        }
        let id = streamer.id();
        let event = ProcessEvent::Exited { id: id.to_owned() };
        let own = match self.registry.get(id) {
            Some(launch) => launch.mark == streamer.mark(),
            None => false,
        };
        if !own {
            return (None, event);
        }
        let mut registry: Registry<Launch<H>> = Registry::new();
        core::mem::swap(&mut self.registry, &mut registry);
        let removed = registry.remove(id);
        core::mem::swap(&mut self.registry, &mut registry);
        match removed {
            Some(launch) => (Some(launch.handle), event),
            None => (None, event),
        }
    }
}

/// Every step keeps a manager well formed.
pub proof fn lemma_well_formed_kept<H, O, E>(
    state: ManagerView<H>,
    id: Seq<char>,
    spawn: Result<Spawned<H, O, E>, String>,
    mark: u64,
)
    requires
        state.well_formed(),
    ensures
        after_launch(state, id, spawn).well_formed(),
        after_removal(state, id).well_formed(),
        after_conclusion(state, id, mark).well_formed(),
{
    let launched = after_launch(state, id, spawn);
    assert forall|other: Seq<char>| launched.live.dom().contains(other) implies (
    #[trigger] launched.live[other]).mark < launched.launches by {
        if other != id {
            assert(state.live[other].mark < state.launches);
        }
    }
    let removed = after_removal(state, id);
    assert forall|other: Seq<char>| removed.live.dom().contains(other) implies (
    #[trigger] removed.live[other]).mark < removed.launches by {
        assert(state.live[other].mark < state.launches);
    }
}

/// Uniqueness: once a launch under `id` has succeeded, any further launch
/// under `id` is refused as already running and leaves the manager, and
/// with it the first process's entry, as it was.
pub proof fn lemma_second_launch_refused<H, O, E>(
    state: ManagerView<H>,
    id: Seq<char>,
    first: Result<Spawned<H, O, E>, String>,
    second: Result<Spawned<H, O, E>, String>,
)
    requires
        launch_outcome(state, id, first) is Started,
    ensures
        launch_outcome(after_launch(state, id, first), id, second) is AlreadyRunning,
        after_launch(after_launch(state, id, first), id, second) == after_launch(state, id, first),
        after_launch(state, id, first).is_live(id),
        after_launch(state, id, first).live[id].handle == first->Ok_0.handle,
{
}

/// A launch touches no entry but that of its own identifier.
pub proof fn lemma_launch_leaves_others<H, O, E>(
    state: ManagerView<H>,
    id: Seq<char>,
    spawn: Result<Spawned<H, O, E>, String>,
    other: Seq<char>,
)
    requires
        other != id,
    ensures
        after_launch(state, id, spawn).is_live(other) == state.is_live(other),
        state.is_live(other) ==> after_launch(state, id, spawn).live[other] == state.live[other],
{
}

/// Cleanup on kill: terminating a live `id` hands out its handle and
/// leaves `id` without an entry at once, so that exactly one process fewer
/// is live. Every other identifier is as it was.
pub proof fn lemma_kill_clears<H>(state: ManagerView<H>, id: Seq<char>, other: Seq<char>)
    requires
        state.well_formed(),
        state.is_live(id),
    ensures
        kill_result(state, id) == Ok::<H, KillError>(state.live[id].handle),
        !after_removal(state, id).is_live(id),
        after_removal(state, id).live.dom().len() + 1 == state.live.dom().len(),
        other != id ==> after_removal(state, id).is_live(other) == state.is_live(other),
        other != id && state.is_live(other) ==> after_removal(state, id).live[other]
            == state.live[other],
{
}

/// Terminating an absent `id` reports that nothing runs under it and
/// leaves the manager as it was. So a second termination of the same `id`
/// is refused and harmless.
pub proof fn lemma_kill_absent<H>(state: ManagerView<H>, id: Seq<char>)
    ensures
        !state.is_live(id) ==> kill_result(state, id) == Err::<H, KillError>(
            KillError::NoRunningProcess,
        ) && after_removal(state, id) == state,
        kill_result(after_removal(state, id), id) == Err::<H, KillError>(
            KillError::NoRunningProcess,
        ),
        after_removal(after_removal(state, id), id) == after_removal(state, id),
{
    assert(after_removal(after_removal(state, id), id).live =~= after_removal(state, id).live);
    if !state.is_live(id) {
        assert(after_removal(state, id).live =~= state.live);
    }
}

/// A concluded streamer asks for nothing that touches the manager.
proof fn lemma_concluded_keeps_manager<H>(
    state: ManagerView<H>,
    streamer: StreamerView,
    reads: Seq<Read>,
)
    requires
        streamer.concluded,
    ensures
        after_actions(state, streamer.id, streamer.mark, actions(streamer, reads)) == state,
    decreases reads.len(),
{
    if reads.len() > 0 {
        lemma_concluded_keeps_manager(state, streamer, reads.drop_first());
        let acts = actions(streamer, reads);
        assert(acts[0] == ActionView::Idle);
        assert(acts.drop_first() =~= actions(streamer, reads.drop_first()));
    }
}

/// Cleanup on exit: once a read has ended the stream of the launch under
/// `id` bearing `mark`, carrying out what its streamer asked for has
/// concluded that launch exactly once. Its entry is gone, whether or not
/// a termination had removed it before; unless another launch holds `id`
/// by then, `id` is not live. The sink has seen exactly one `Exited`
/// event, as the last event of all.
pub proof fn lemma_cleanup_on_exit<H>(
    state: ManagerView<H>,
    id: Seq<char>,
    mark: u64,
    reads: Seq<Read>,
)
    requires
        live_prefix(reads) < reads.len(),
    ensures
        after_actions(state, id, mark, actions(fresh(id, mark), reads)) == after_conclusion(
            state,
            id,
            mark,
        ),
        !after_conclusion(state, id, mark).owns(id, mark),
        !state.is_live(id) || state.owns(id, mark) ==> !after_conclusion(state, id, mark).is_live(
            id,
        ),
        published_by(id, mark, reads) == emitted(id, reads),
        emitted(id, reads).len() == live_prefix(reads) + 1,
        forall|i: int|
            0 <= i < emitted(id, reads).len() ==> (#[trigger] emitted(id, reads)[i] is Exited <==> i
                == emitted(id, reads).len() - 1),
    decreases reads.len(),
{
    lemma_exit_once(id, reads);
    lemma_actions_ignore_mark(fresh(id, mark), fresh(id, 0), reads);
    let rest = reads.drop_first();
    let acts = actions(fresh(id, mark), reads);
    let (next, action) = step(fresh(id, mark), reads[0].0, reads[0].1);
    assert(acts.drop_first() =~= actions(next, rest));
    if reads[0].1 is Line {
        lemma_cleanup_on_exit(state, id, mark, rest);
    } else {
        lemma_concluded_keeps_manager(after_conclusion(state, id, mark), next, rest);
    }
}

/// A streamer spares every later launch: where a launch registers a
/// process under `id`, the conclusion of any launch that bears an earlier
/// mark leaves the manager, and with it the new entry, as it is.
pub proof fn lemma_earlier_streamer_spares_launch<H, O, E>(
    state: ManagerView<H>,
    id: Seq<char>,
    spawn: Result<Spawned<H, O, E>, String>,
    earlier: u64,
)
    requires
        registers(state, id, spawn),
        earlier < state.launches,
    ensures
        after_conclusion(after_launch(state, id, spawn), id, earlier) == after_launch(
            state,
            id,
            spawn,
        ),
        after_launch(state, id, spawn).is_live(id),
        after_launch(state, id, spawn).live[id].handle == spawn->Ok_0.handle,
{
}

/// Launch, terminate, launch again, and only then the first launch's
/// streamer concludes: the identifier stays live with the second
/// process's handle, and the conclusion hands out nothing.
pub proof fn lemma_relaunch_survives_conclusion<H, O, E>(
    state: ManagerView<H>,
    id: Seq<char>,
    first: Result<Spawned<H, O, E>, String>,
    second: Result<Spawned<H, O, E>, String>,
)
    requires
        launch_outcome(state, id, first) is Started,
        launch_outcome(after_removal(after_launch(state, id, first), id), id, second) is Started,
    ensures
        ({
            let launched = after_launch(state, id, first);
            let killed = after_removal(launched, id);
            let relaunched = after_launch(killed, id, second);
            let first_mark = launched.live[id].mark;
            &&& kill_result(launched, id) == Ok::<H, KillError>(first->Ok_0.handle)
            &&& !killed.is_live(id)
            &&& !relaunched.owns(id, first_mark)
            &&& after_conclusion(relaunched, id, first_mark) == relaunched
            &&& relaunched.is_live(id)
            &&& relaunched.live[id].handle == second->Ok_0.handle
        }),
{
}

} // verus!
