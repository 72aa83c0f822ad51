//! The runs that are active: admission, start, lookup and the end.
use crate::config::{place_of, AssetConfig, DataConfig};
use crate::ids::{id_text, id_text_spec};
use crate::run_manager::RunStatus;
use crate::text::{concat2, join_path, joined};
use std::collections::HashMap;
use vstd::multiset::Multiset;
use vstd::prelude::*;
use vstd::string::*;

verus! {

broadcast use vstd::std_specs::hash::group_hash_axioms;

/// A run as it is recorded: its data configuration and its training
/// configuration as a document.
pub struct RunRecord {
    pub data_config: DataConfig,
    pub train_config: String,
}

/// What a client learns when its run starts.
pub struct RunInitialization {
    pub train_config: String,
    pub assets: Vec<String>,
}

/// What happened while a run starts.
pub enum StartEvent {
    /// The record of the run, if there is one.
    Record(Option<RunRecord>),
    /// The last action was carried out.
    Done,
    /// The last action failed, with this message.
    Failed(String),
    /// All the downloads of assets are over, each with how it went.
    Assets(Vec<Result<(), String>>),
}

/// What to do next while a run starts.
pub enum StartAction {
    /// Look the run up.
    FetchRecord,
    /// Set the state of the run up.
    SetUp,
    /// Record that the run has this status.
    AppendStatus(RunStatus),
    /// Download all the assets and wait for all of them.
    EnsureAssets,
    /// Start answering requests and enter the run as active.
    Activate,
    /// Take the state of the run down and remove its directory.
    TakeDown,
    /// The run does not start, for this reason.
    Fail(String),
}

/// How far a start has come.
pub enum StartPhase {
    Fetching,
    SettingUp,
    Appending,
    Ensuring,
    TakingDown(String),
    /// Everything is there.
    Ready,
    Over,
}

/// A run that starts.
pub struct StartRun {
    pub id: u128,
    pub phase: StartPhase,
    pub record: Option<RunRecord>,
}

/// The first failure in a list of results.
pub open spec fn first_failure(results: Seq<Result<(), String>>) -> Option<String>
    decreases results.len(),
{
    if results.len() == 0 {
        None
    } else {
        match first_failure(results.drop_last()) {
            Some(error) => Some(error),
            None => match results.last() {
                Err(error) => Some(error),
                Ok(_) => None,
            },
        }
    }
}

/// An event makes sense in a phase.
pub open spec fn expects(phase: StartPhase, event: StartEvent) -> bool {
    match phase {
        StartPhase::Fetching => event is Record || event is Failed,
        StartPhase::SettingUp => event is Done || event is Failed,
        StartPhase::Appending => event is Done || event is Failed,
        StartPhase::Ensuring => event is Assets,
        StartPhase::TakingDown(_) => event is Done,
        StartPhase::Ready => false,
        StartPhase::Over => false,
    }
}

/// The phase after an event.
pub open spec fn next_phase(phase: StartPhase, event: StartEvent) -> StartPhase {
    match (phase, event) {
        (StartPhase::Fetching, StartEvent::Record(Some(_))) => StartPhase::SettingUp,
        (StartPhase::SettingUp, StartEvent::Done) => StartPhase::Appending,
        (StartPhase::Appending, StartEvent::Done) => StartPhase::Ensuring,
        (StartPhase::Appending, StartEvent::Failed(error)) => StartPhase::TakingDown(error),
        (StartPhase::Ensuring, StartEvent::Assets(results)) => match first_failure(results@) {
            Some(error) => StartPhase::TakingDown(error),
            None => StartPhase::Ready,
        },
        _ => StartPhase::Over,
    }
}

/// What is done after an event, but for a run that is not found.
pub open spec fn next_action(phase: StartPhase, event: StartEvent) -> StartAction {
    match (phase, event) {
        (StartPhase::Fetching, StartEvent::Record(Some(_))) => StartAction::SetUp,
        (StartPhase::SettingUp, StartEvent::Done) => StartAction::AppendStatus(RunStatus::Running),
        (StartPhase::Appending, StartEvent::Done) => StartAction::EnsureAssets,
        (StartPhase::Appending, StartEvent::Failed(_)) => StartAction::TakeDown,
        (StartPhase::Ensuring, StartEvent::Assets(results)) => match first_failure(results@) {
            Some(_) => StartAction::TakeDown,
            None => StartAction::Activate,
        },
        (StartPhase::TakingDown(error), _) => StartAction::Fail(error),
        (_, StartEvent::Failed(error)) => StartAction::Fail(error),
        _ => StartAction::TakeDown,
    }
}

/// One step of a start.
pub open spec fn steps(
    phase: StartPhase,
    event: StartEvent,
    next: StartPhase,
    action: StartAction,
) -> bool {
    &&& next == next_phase(phase, event)
    &&& match event {
        StartEvent::Record(None) => action matches StartAction::Fail(message) && message@
            == "run not found"@,
        _ => action == next_action(phase, event),
    }
}

fn take_first_failure(results: Vec<Result<(), String>>) -> (failure: Option<String>)
    ensures
        failure == first_failure(results@),
{
    let ghost all = results@;
    proof {
        assert(all.take(0) =~= Seq::<Result<(), String>>::empty());
    }
    for result in iter: results
        invariant
            iter.seq() == all,
            all == results@,
            first_failure(all.take(iter.index() as int)) is None,
    {
        let ghost index = iter.index() as int;
        proof {
            assert(result == all[index]);
            assert(all.take(index + 1).drop_last() =~= all.take(index));
        }
        match result {
            Err(error) => {
                proof {
                    lemma_failure_sticks(all, index + 1);
                }
                return Some(error);
            },
            Ok(()) => {},
        }
    }
    assert(all.take(all.len() as int) =~= all);
    None
}

proof fn lemma_failure_sticks(results: Seq<Result<(), String>>, n: int)
    requires
        0 <= n <= results.len(),
    ensures
        first_failure(results.take(n)) matches Some(error) ==> first_failure(results) == Some(error),
    decreases results.len() - n,
{
    if n == results.len() {
        assert(results.take(n) =~= results);
    } else {
        assert(results.take(n + 1).drop_last() =~= results.take(n));
        lemma_failure_sticks(results, n + 1);
    }
}

impl StartRun {
    /// The record is there from the moment it was found.
    pub open spec fn wf(self) -> bool {
        match self.phase {
            StartPhase::Fetching => true,
            StartPhase::Over => true,
            _ => self.record is Some,
        }
    }

    /// One step: takes what happened and says what to do next.
    pub fn step(&mut self, event: StartEvent) -> (action: StartAction)
        requires
            old(self).wf(),
            expects(old(self).phase, event),
        ensures
            final(self).wf(),
            final(self).id == old(self).id,
            steps(old(self).phase, event, final(self).phase, action),
            match event {
                StartEvent::Record(record) => final(self).record == record,
                _ => final(self).record == old(self).record,
            },
    {
        let mut phase = StartPhase::Over;
        std::mem::swap(&mut phase, &mut self.phase);
        match (phase, event) {
            (StartPhase::Fetching, StartEvent::Record(record)) => {
                let found = record.is_some();
                self.record = record;
                if found {
                    self.phase = StartPhase::SettingUp;
                    StartAction::SetUp
                } else {
                    StartAction::Fail("run not found".to_owned())
                }
            },
            (StartPhase::SettingUp, StartEvent::Done) => {
                self.phase = StartPhase::Appending;
                StartAction::AppendStatus(RunStatus::Running)
            },
            (StartPhase::Appending, StartEvent::Done) => {
                self.phase = StartPhase::Ensuring;
                StartAction::EnsureAssets
            },
            (StartPhase::Appending, StartEvent::Failed(error)) => {
                self.phase = StartPhase::TakingDown(error);
                StartAction::TakeDown
            },
            (StartPhase::Ensuring, StartEvent::Assets(results)) => {
                match take_first_failure(results) {
                    Some(error) => {
                        self.phase = StartPhase::TakingDown(error);
                        StartAction::TakeDown
                    },
                    None => {
                        self.phase = StartPhase::Ready;
                        StartAction::Activate
                    },
                }
            },
            (StartPhase::TakingDown(error), _) => StartAction::Fail(error),
            (_, StartEvent::Failed(error)) => StartAction::Fail(error),
            _ => StartAction::TakeDown,
        }
    }
}

/// The state of the run is up: it was set up and not taken down again.
pub open spec fn is_up(phase: StartPhase) -> bool {
    phase is Appending || phase is Ensuring || phase is TakingDown || phase is Ready
}

/// A start's history: the phases it went through, what happened and what was
/// done.
pub open spec fn is_history(
    phases: Seq<StartPhase>,
    events: Seq<StartEvent>,
    actions: Seq<StartAction>,
) -> bool {
    &&& phases.len() == events.len() + 1
    &&& actions.len() == events.len()
    &&& phases[0] is Fetching
    &&& forall|i: int|
        #![trigger events[i]]
        0 <= i < events.len() ==> expects(phases[i], events[i]) && steps(
            phases[i],
            events[i],
            phases[i + 1],
            actions[i],
        )
}

/// The state of the run was up before the first `n` steps were over.
pub open spec fn was_up(phases: Seq<StartPhase>, n: int) -> bool {
    exists|i: int| 0 <= i <= n && #[trigger] is_up(phases[i])
}

/// A start that fails leaves nothing behind: if the state of the run was up,
/// it was taken down just before the failure is told; and a run becomes active
/// only while its state is up.
pub proof fn law_failed_start_is_taken_down(
    phases: Seq<StartPhase>,
    events: Seq<StartEvent>,
    actions: Seq<StartAction>,
)
    requires
        is_history(phases, events, actions),
        events.len() > 0,
    ensures
        actions.last() is Fail && was_up(phases, events.len() as int) ==> events.len() > 1
            && actions[events.len() - 2] is TakeDown,
        actions.last() is Activate ==> is_up(phases[events.len() - 1]) && !exists|i: int|
            0 <= i < events.len() && #[trigger] actions[i] is TakeDown,
{
    let n = events.len() - 1;
    lemma_up_until_taken_down(phases, events, actions, n);
    assert(steps(phases[n], events[n], phases[n + 1], actions[n]));
}

proof fn lemma_up_until_taken_down(
    phases: Seq<StartPhase>,
    events: Seq<StartEvent>,
    actions: Seq<StartAction>,
    n: int,
)
    requires
        is_history(phases, events, actions),
        0 <= n <= events.len(),
    ensures
        phases[n] is Fetching || phases[n] is SettingUp ==> !was_up(phases, n),
        phases[n] is TakingDown ==> n > 0 && actions[n - 1] is TakeDown,
        !(phases[n] is TakingDown || phases[n] is Over) ==> forall|i: int|
            0 <= i < n ==> !(#[trigger] actions[i] is TakeDown),
    decreases n,
{
    if n > 0 {
        lemma_up_until_taken_down(phases, events, actions, n - 1);
        assert(expects(phases[n - 1], events[n - 1]));
        assert(steps(phases[n - 1], events[n - 1], phases[n], actions[n - 1]));
    }
}

/// The runs that are active, and who must be waited for at shutdown.
pub struct RunExecutor {
    runs: HashMap<u128, DataConfig>,
    closed: bool,
    live: Vec<u128>,
}

/// What changes who shutdown waits for.
#[derive(Clone, Copy, Debug, PartialEq, Eq, Structural)]
pub enum Change {
    /// A run was admitted and begins to start.
    Begin(u128),
    /// A start failed.
    StartFailed(u128),
    /// A start was ready and its run was entered.
    Activate(u128),
    /// A task that answers requests ended.
    TaskEnded(u128),
    /// An entry is over: it was removed and recorded, or another took its
    /// place.
    EntryEnded(u128),
    /// The server shuts down.
    Close,
    /// Nothing changed in this respect: a run was refused or removed.
    Unchanged,
}

/// An executor accounts for a change: runs begin only while it is open, and
/// only shutting down closes it. A start and an entered run are one lifetime,
/// and the task that answers the requests of a run is one more.
pub open spec fn accounts(before: RunExecutor, change: Change, after: RunExecutor) -> bool {
    &&& match change {
        Change::Begin(id) | Change::Activate(id) => after.waited_for()
            == before.waited_for().insert(id),
        Change::StartFailed(id) | Change::TaskEnded(id) | Change::EntryEnded(id) => {
            &&& before.waited_for().count(id) > 0
            &&& after.waited_for() == before.waited_for().remove(id)
        },
        Change::Close | Change::Unchanged => after.waited_for() == before.waited_for(),
    }
    &&& after.is_closed() == (before.is_closed() || change == Change::Close)
    &&& change is Begin ==> !before.is_closed()
}

/// How beginning to start a run goes: not while the server shuts down, and not
/// while the run is active.
pub open spec fn begins(
    before: RunExecutor,
    id: u128,
    result: Result<StartRun, String>,
    after: RunExecutor,
) -> bool {
    &&& after.active() == before.active()
    &&& match result {
        Ok(start) => {
            &&& !before.active().contains_key(id)
            &&& accounts(before, Change::Begin(id), after)
            &&& start == (StartRun { id, phase: StartPhase::Fetching, record: None })
        },
        Err(message) => {
            &&& accounts(before, Change::Unchanged, after)
            &&& if before.is_closed() {
                message@ == "server is shutting down; new runs are not accepted"@
            } else {
                before.active().contains_key(id) && message@ == "run is already active"@
            }
        },
    }
}

/// What a client learns of a run that is entered: its training configuration
/// and the names of its assets.
pub open spec fn tells(initialization: RunInitialization, record: RunRecord) -> bool {
    &&& initialization.train_config == record.train_config
    &&& initialization.assets@.len() == record.data_config.assets@.len()
    &&& forall|i: int|
        0 <= i < initialization.assets@.len() ==> (#[trigger] initialization.assets@[i])@
            == record.data_config.assets@[i].0@
}

/// A run whose start is ready is entered.
pub open spec fn enters(
    before: RunExecutor,
    start: StartRun,
    initialization: RunInitialization,
    after: RunExecutor,
) -> bool {
    &&& start.record is Some
    &&& after.active() == before.active().insert(start.id, (start.record->0).data_config)
    &&& accounts(before, Change::Activate(start.id), after)
    &&& tells(initialization, start.record->0)
}

/// A run is entered no longer, if it was.
pub open spec fn leaves(
    before: RunExecutor,
    id: u128,
    result: Result<RunStatus, String>,
    after: RunExecutor,
) -> bool {
    &&& accounts(before, Change::Unchanged, after)
    &&& match result {
        Ok(status) => {
            &&& before.active().contains_key(id)
            &&& after.active() == before.active().remove(id)
            &&& status == RunStatus::Succeeded
        },
        Err(message) => {
            &&& !before.active().contains_key(id)
            &&& after.active() == before.active()
            &&& message@ == "unknown run"@
        },
    }
}

impl RunExecutor {
    /// The active runs with their configurations.
    pub closed spec fn active(self) -> Map<u128, DataConfig> {
        self.runs@
    }

    /// No more runs are admitted.
    pub closed spec fn is_closed(self) -> bool {
        self.closed
    }

    /// Who shutdown waits for: a run as often as it has lifetimes.
    pub closed spec fn waited_for(self) -> Multiset<u128> {
        self.live@.to_multiset()
    }

    /// No run is active and any may start.
    pub fn new() -> (executor: RunExecutor)
        ensures
            executor.active() == Map::<u128, DataConfig>::empty(),
            !executor.is_closed(),
            executor.waited_for() == Multiset::<u128>::empty(),
    {
        let executor = RunExecutor { runs: HashMap::new(), closed: false, live: Vec::new() };
        proof {
            executor.live@.to_multiset_ensures();
            assert forall|id: u128| executor.live@.to_multiset().count(id) == 0 by {
                assert(!executor.live@.contains(id));
            }
            assert(executor.live@.to_multiset() =~= Multiset::<u128>::empty());
        }
        executor
    }

    fn take_in(&mut self, id: u128) -> (result: Result<(), String>)
        ensures
            final(self).runs@ == old(self).runs@,
            final(self).closed == old(self).closed,
            match result {
                Ok(()) => !old(self).closed && final(self).live@ == old(self).live@.push(id),
                Err(message) => old(self).closed && final(self).live@ == old(self).live@ && message@
                    == "server is shutting down; new runs are not accepted"@,
            },
    {
        if self.closed {
            return Err("server is shutting down; new runs are not accepted".to_owned());
        }
        self.live.push(id);
        Ok(())
    }

    /// A run begins to start: not while the server shuts down, and not while
    /// it is active.
    pub fn start(&mut self, id: u128) -> (start: Result<StartRun, String>)
        ensures
            begins(*old(self), id, start, *final(self)),
            start matches Ok(start) ==> start.wf(),
            start is Ok <==> !old(self).is_closed() && !old(self).active().contains_key(id),
            start matches Ok(begun) ==> begun.id == id && begun.phase is Fetching,
            final(self).active() == old(self).active(),
            final(self).is_closed() == old(self).is_closed(),
    {
        match self.take_in(id) {
            Ok(()) => {},
            Err(message) => return Err(message),
        }
        proof {
            old(self).live@.to_multiset_ensures();
        }
        if self.runs.contains_key(&id) {
            self.live.pop();
            assert(self.live@ =~= old(self).live@);
            return Err("run is already active".to_owned());
        }
        Ok(StartRun { id, phase: StartPhase::Fetching, record: None })
    }

    /// A lifetime of a run is over: its start failed, its task ended, or its
    /// entry was removed and recorded or gave way to another.
    pub fn release(&mut self, id: u128)
        requires
            old(self).waited_for().count(id) > 0,
        ensures
            final(self).active() == old(self).active(),
            accounts(*old(self), Change::StartFailed(id), *final(self)),
            accounts(*old(self), Change::TaskEnded(id), *final(self)),
            accounts(*old(self), Change::EntryEnded(id), *final(self)),
    {
        proof {
            self.live@.to_multiset_ensures();
        }
        let count: usize = self.live.len();
        let mut i: usize = 0;
        while self.live[i] != id
            invariant
                *self == *old(self),
                count == self.live@.len(),
                i < count,
                self.live@.contains(id),
                forall|k: int| 0 <= k < i ==> self.live@[k] != id,
            decreases self.live@.len() - i,
        {
            assert(i + 1 < self.live@.len()) by {
                let k = self.live@.index_of(id);
                assert(self.live@[k] == id);
            }
            i = i + 1;
        }
        self.live.remove(i);
    }

    /// A run whose start is ready becomes active. Its entry keeps the lifetime
    /// of the start, and the task that answers its requests gets one more.
    pub fn activate(&mut self, start: StartRun) -> (initialization: RunInitialization)
        requires
            start.phase is Ready,
            start.wf(),
        ensures
            enters(*old(self), start, initialization, *final(self)),
            final(self).active() == old(self).active().insert(
                start.id,
                (start.record->0).data_config,
            ),
            initialization.train_config@ == (start.record->0).train_config@,
            initialization.assets@.len() == (start.record->0).data_config.assets@.len(),
            forall|i: int|
                0 <= i < initialization.assets@.len() ==> (#[trigger] initialization.assets@[i])@
                    == (start.record->0).data_config.assets@[i].0@,
            final(self).is_closed() == old(self).is_closed(),
    {
        proof {
            self.live@.to_multiset_ensures();
        }
        match start.record {
            Some(record) => {
                let assets = record.data_config.asset_names();
                self.runs.insert(start.id, record.data_config);
                self.live.push(start.id);
                RunInitialization { train_config: record.train_config, assets }
            },
            None => RunInitialization { train_config: String::new(), assets: Vec::new() },
        }
    }

    /// A batch can be asked of an active run only.
    pub fn next_batch(&self, id: u128) -> (result: Result<(), String>)
        ensures
            match result {
                Ok(()) => self.active().contains_key(id),
                Err(message) => !self.active().contains_key(id) && message@ == "unknown run"@,
            },
    {
        if self.runs.contains_key(&id) {
            Ok(())
        } else {
            Err("unknown run".to_owned())
        }
    }

    /// An active run is entered no longer; it is then cancelled, waited for
    /// and recorded with the status that is returned, and its lifetime ends.
    pub fn finish(&mut self, id: u128) -> (result: Result<RunStatus, String>)
        ensures
            leaves(*old(self), id, result, *final(self)),
            result is Ok <==> old(self).active().contains_key(id),
            result matches Ok(status) ==> status == RunStatus::Succeeded && final(self).active()
                == old(self).active().remove(id),
            result matches Err(message) ==> message@ == "unknown run"@ && final(self).active()
                == old(self).active(),
            final(self).is_closed() == old(self).is_closed(),
    {
        if !self.runs.contains_key(&id) {
            return Err("unknown run".to_owned());
        }
        self.runs.remove(&id);
        Ok(RunStatus::Succeeded)
    }

    /// The object and the entrypoint of an asset of an active run.
    pub fn asset(&self, id: u128, name: &str) -> (asset: Result<&AssetConfig, String>)
        ensures
            match asset {
                Ok(asset) => {
                    &&& self.active().contains_key(id)
                    &&& place_of(self.active()[id].assets@, name@) matches Some(place)
                    &&& *asset == self.active()[id].assets@[place].1
                },
                Err(message) => if !self.active().contains_key(id) {
                    message@ == "unknown run"@
                } else {
                    place_of(self.active()[id].assets@, name@) is None && message@
                        == "unknown asset"@
                },
            },
    {
        match self.runs.get(&id) {
            None => Err("unknown run".to_owned()),
            Some(config) => match config.asset(name) {
                Some(asset) => Ok(asset),
                None => Err("unknown asset".to_owned()),
            },
        }
    }

    /// The type under which the checkpoints of an active run are recorded.
    pub fn asset_type(&self, id: u128) -> (asset_type: Result<String, String>)
        ensures
            match asset_type {
                Ok(asset_type) => self.active().contains_key(id) && asset_type@
                    == self.active()[id].asset_type@,
                Err(message) => !self.active().contains_key(id) && message@ == "unknown run"@,
            },
    {
        match self.runs.get(&id) {
            None => Err("unknown run".to_owned()),
            Some(config) => Ok(config.asset_type.clone()),
        }
    }

    /// Whether a run is active.
    pub fn is_running(&self, id: u128) -> (running: bool)
        ensures
            running == self.active().contains_key(id),
    {
        self.runs.contains_key(&id)
    }

    /// No more runs are admitted; those that are admitted go on.
    pub fn shutdown(&mut self) -> (pending: usize)
        ensures
            final(self).active() == old(self).active(),
            accounts(*old(self), Change::Close, *final(self)),
            final(self).is_closed(),
            final(self).waited_for() == old(self).waited_for(),
            pending == old(self).waited_for().len(),
    {
        proof {
            self.live@.to_multiset_ensures();
        }
        self.closed = true;
        self.live.len()
    }

    /// Shutdown has nothing left to wait for.
    pub fn drained(&self) -> (drained: bool)
        ensures
            drained == (self.is_closed() && self.waited_for().len() == 0),
    {
        proof {
            self.live@.to_multiset_ensures();
        }
        self.closed && self.live.len() == 0
    }
}

/// A call of an executor, with what came of it.
pub enum Call {
    Start(u128, Result<StartRun, String>),
    Activate(StartRun, RunInitialization),
    Finish(u128, Result<RunStatus, String>),
    /// A lifetime ended, for this reason.
    Release(Change),
    Shutdown,
}

/// What a call changes for shutdown.
pub open spec fn change_of(call: Call) -> Change {
    match call {
        Call::Start(id, Ok(_)) => Change::Begin(id),
        Call::Activate(start, _) => Change::Activate(start.id),
        Call::Release(change) => change,
        Call::Shutdown => Change::Close,
        _ => Change::Unchanged,
    }
}

/// What a call does.
pub open spec fn calls_to(before: RunExecutor, call: Call, after: RunExecutor) -> bool {
    match call {
        Call::Start(id, result) => begins(before, id, result, after),
        Call::Activate(start, initialization) => enters(before, start, initialization, after),
        Call::Finish(id, result) => leaves(before, id, result, after),
        Call::Release(change) => {
            &&& change is StartFailed || change is TaskEnded || change is EntryEnded
            &&& after.active() == before.active()
            &&& accounts(before, change, after)
        },
        Call::Shutdown => {
            &&& after.active() == before.active()
            &&& accounts(before, Change::Close, after)
        },
    }
}

/// An executor's history: the states it went through and the calls.
pub open spec fn is_lifecycle(states: Seq<RunExecutor>, calls: Seq<Call>) -> bool {
    &&& states.len() == calls.len() + 1
    &&& states[0].active() == Map::<u128, DataConfig>::empty()
    &&& states[0].waited_for() == Multiset::<u128>::empty()
    &&& !states[0].is_closed()
    &&& forall|i: int|
        #![trigger calls[i]]
        0 <= i < calls.len() ==> calls_to(states[i], calls[i], states[i + 1])
}

/// How many of the calls made this change.
pub open spec fn times(calls: Seq<Call>, change: Change) -> int
    decreases calls.len(),
{
    if calls.len() == 0 {
        0
    } else {
        times(calls.drop_last(), change) + if change_of(calls.last()) == change {
            1int
        } else {
            0int
        }
    }
}

/// How many of the calls finished this run.
pub open spec fn finishes(calls: Seq<Call>, id: u128) -> int
    decreases calls.len(),
{
    if calls.len() == 0 {
        0
    } else {
        finishes(calls.drop_last(), id) + if calls.last() matches Call::Finish(run, Ok(_)) && run
            == id {
            1int
        } else {
            0int
        }
    }
}

/// How often a run is starting after some calls.
pub open spec fn starting(calls: Seq<Call>, id: u128) -> int {
    times(calls, Change::Begin(id)) - times(calls, Change::StartFailed(id)) - times(
        calls,
        Change::Activate(id),
    )
}

/// How often a run was entered while it was active already, which happens
/// where it was started twice at once: the new entry takes the place of the old.
pub open spec fn replacements(states: Seq<RunExecutor>, calls: Seq<Call>, id: u128) -> int
    decreases calls.len(),
{
    if calls.len() == 0 {
        0
    } else {
        replacements(states, calls.drop_last(), id) + if change_of(calls.last())
            == Change::Activate(id) && states[calls.len() - 1].active().contains_key(id) {
            1int
        } else {
            0int
        }
    }
}

/// How many entries of a run there are that are not over after some calls.
pub open spec fn entered(calls: Seq<Call>, id: u128) -> int {
    times(calls, Change::Activate(id)) - times(calls, Change::EntryEnded(id))
}

/// How many tasks answer the requests of a run after some calls.
pub open spec fn tasks(calls: Seq<Call>, id: u128) -> int {
    times(calls, Change::Activate(id)) - times(calls, Change::TaskEnded(id))
}

/// Shutdown waits for everyone: of every run the executor counts the starts,
/// the entries and the tasks, and of a run that nobody has started none.
pub proof fn law_shutdown_waits_for_everyone(
    states: Seq<RunExecutor>,
    calls: Seq<Call>,
    n: int,
    id: u128,
)
    requires
        is_lifecycle(states, calls),
        0 <= n <= calls.len(),
    ensures
        states[n].waited_for().count(id) == starting(calls.take(n), id) + entered(
            calls.take(n),
            id,
        ) + tasks(calls.take(n), id),
    decreases n,
{
    if n > 0 {
        law_shutdown_waits_for_everyone(states, calls, n - 1, id);
        assert(calls_to(states[n - 1], calls[n - 1], states[n]));
        assert(calls.take(n).drop_last() =~= calls.take(n - 1));
        assert(accounts(states[n - 1], change_of(calls[n - 1]), states[n]));
    }
}

/// From the moment the server shuts down every start is refused with the same
/// message, and the active runs stay as they are.
pub proof fn law_closed_admits_nobody(
    states: Seq<RunExecutor>,
    calls: Seq<Call>,
    i: int,
    j: int,
)
    requires
        is_lifecycle(states, calls),
        0 <= i < j < calls.len(),
        calls[i] is Shutdown,
    ensures
        states[j].is_closed(),
        calls[j] matches Call::Start(_, result) ==> {
            &&& (result matches Err(message) && message@
                == "server is shutting down; new runs are not accepted"@)
            &&& states[j + 1].active() == states[j].active()
        },
    decreases j,
{
    if i + 1 < j {
        law_closed_admits_nobody(states, calls, i, j - 1);
    }
    assert(calls_to(states[j - 1], calls[j - 1], states[j]));
    assert(accounts(states[j - 1], change_of(calls[j - 1]), states[j]));
    assert(calls_to(states[j], calls[j], states[j + 1]));
}

/// Whoever ends a lifetime of this run holds it: a start that has neither
/// failed nor been entered, a task, or an entry that was removed or replaced;
/// and a run is entered from a start of it.
pub open spec fn is_owed(states: Seq<RunExecutor>, calls: Seq<Call>, n: int, id: u128) -> bool {
    let before = calls.take(n);
    match change_of(calls[n]) {
        Change::StartFailed(run) => run == id ==> starting(before, id) > 0,
        Change::TaskEnded(run) => run == id ==> tasks(before, id) > 0,
        Change::EntryEnded(run) => run == id ==> times(before, Change::EntryEnded(id)) < finishes(
            before,
            id,
        ) + replacements(states, before, id),
        Change::Activate(run) => run == id ==> starting(before, id) > 0,
        _ => true,
    }
}

proof fn lemma_entered(states: Seq<RunExecutor>, calls: Seq<Call>, n: int, id: u128)
    requires
        is_lifecycle(states, calls),
        0 <= n <= calls.len(),
        forall|i: int|
            #![trigger calls[i]]
            0 <= i < calls.len() ==> is_owed(states, calls, i, id),
    ensures
        starting(calls.take(n), id) >= 0,
        tasks(calls.take(n), id) >= 0,
        times(calls.take(n), Change::EntryEnded(id)) <= finishes(calls.take(n), id) + replacements(
            states,
            calls.take(n),
            id,
        ),
        times(calls.take(n), Change::Activate(id)) == finishes(calls.take(n), id) + replacements(
            states,
            calls.take(n),
            id,
        ) + if states[n].active().contains_key(id) {
            1int
        } else {
            0int
        },
    decreases n,
{
    if n > 0 {
        lemma_entered(states, calls, n - 1, id);
        assert(calls_to(states[n - 1], calls[n - 1], states[n]));
        assert(is_owed(states, calls, n - 1, id));
        assert(calls.take(n).drop_last() =~= calls.take(n - 1));
    }
}

/// When shutdown has nothing left to wait for, no run is active: every entry of
/// a run was finished, or gave way to another that was, and is over; and every
/// start that was not entered has failed. This holds of a run that was started
/// twice at once too.
pub proof fn law_drained_when_all_are_finished(
    states: Seq<RunExecutor>,
    calls: Seq<Call>,
    id: u128,
)
    requires
        is_lifecycle(states, calls),
        forall|i: int|
            #![trigger calls[i]]
            0 <= i < calls.len() ==> is_owed(states, calls, i, id),
        states.last().waited_for().len() == 0,
    ensures
        !states.last().active().contains_key(id),
        times(calls, Change::Activate(id)) == finishes(calls, id) + replacements(states, calls, id),
        times(calls, Change::EntryEnded(id)) == times(calls, Change::Activate(id)),
        times(calls, Change::TaskEnded(id)) == times(calls, Change::Activate(id)),
        times(calls, Change::Begin(id)) == times(calls, Change::StartFailed(id)) + times(
            calls,
            Change::Activate(id),
        ),
{
    let n = calls.len() as int;
    assert(calls.take(n) =~= calls);
    law_shutdown_waits_for_everyone(states, calls, n, id);
    lemma_entered(states, calls, n, id);
    let waited = states.last().waited_for();
    if waited.count(id) > 0 {
        assert(waited.remove(id).len() == waited.len() - 1);
    }
}

/// A run that was entered stays active until it is finished, whatever else is
/// called, shutting down included: its client was told what its record says,
/// another start of it is refused and changes nothing, and its configuration
/// stays unless a start of it that was under way before is entered too.
pub proof fn law_active_until_finished(
    states: Seq<RunExecutor>,
    calls: Seq<Call>,
    i: int,
    n: int,
    start: StartRun,
    initialization: RunInitialization,
)
    requires
        is_lifecycle(states, calls),
        0 <= i < n <= calls.len(),
        calls[i] == Call::Activate(start, initialization),
        forall|k: int|
            i < k < n ==> !(#[trigger] calls[k] matches Call::Finish(run, Ok(_)) && run
                == start.id),
    ensures
        start.record is Some,
        tells(initialization, start.record->0),
        states[n].active().contains_key(start.id),
        (forall|k: int| i < k < n ==> change_of(#[trigger] calls[k]) != Change::Activate(start.id))
            ==> states[n].active()[start.id] == (start.record->0).data_config,
        n < calls.len() ==> (calls[n] matches Call::Start(run, result) ==> (run == start.id ==> {
            &&& states[n + 1].active() == states[n].active()
            &&& result matches Err(message)
            &&& message@ == if states[n].is_closed() {
                "server is shutting down; new runs are not accepted"@
            } else {
                "run is already active"@
            }
        })),
    decreases n,
{
    assert(calls_to(states[i], calls[i], states[i + 1]));
    if i + 1 < n {
        law_active_until_finished(states, calls, i, n - 1, start, initialization);
        assert(calls_to(states[n - 1], calls[n - 1], states[n]));
        let kept = forall|k: int|
            i < k < n ==> change_of(#[trigger] calls[k]) != Change::Activate(start.id);
        if kept {
            assert(change_of(calls[n - 1]) != Change::Activate(start.id));
        }
    }
    if n < calls.len() {
        assert(calls_to(states[n], calls[n], states[n + 1]));
    }
}

/// How many lines stand in for an asset of a synthetic run.
pub const SYNTHETIC_LINES: usize = 1024;

/// A text many times over.
pub open spec fn many(text: Seq<char>, times: nat) -> Seq<char>
    decreases times,
{
    if times == 0 {
        Seq::empty()
    } else {
        many(text, (times - 1) as nat) + text
    }
}

/// Where the assets of runs are cached.
pub struct AssetStore {
    pub root: String,
}

/// The directory of a run's assets.
pub open spec fn assets_dir_spec(root: Seq<char>, run_id: u128) -> Seq<char> {
    joined(joined(root, id_text_spec(run_id)), "assets"@)
}

/// What making an asset available takes.
#[derive(Clone, Copy, Debug, PartialEq, Eq, Structural)]
pub enum EnsureStep {
    /// It is there.
    Present,
    /// It is downloaded to the part file, synced, and given its name.
    Download,
}

impl AssetStore {
    /// The directory of a run's assets.
    pub fn dir(&self, run_id: u128) -> (path: String)
        ensures
            path@ == assets_dir_spec(self.root@, run_id),
    {
        join_path(join_path(self.root.as_str(), id_text(run_id).as_str()).as_str(), "assets")
    }

    /// Where an asset is kept.
    pub fn path(&self, run_id: u128, name: &str) -> (path: String)
        ensures
            path@ == joined(assets_dir_spec(self.root@, run_id), name@),
    {
        join_path(self.dir(run_id).as_str(), name)
    }

    /// Where an asset that is still arriving is written.
    pub fn part_path(&self, run_id: u128, name: &str) -> (path: String)
        ensures
            path@ == joined(assets_dir_spec(self.root@, run_id), name@ + ".part"@),
    {
        join_path(self.dir(run_id).as_str(), concat2(name, ".part").as_str())
    }

    /// An asset that is there is not fetched again.
    pub fn ensure(present: bool) -> (step: EnsureStep)
        ensures
            step == if present { EnsureStep::Present } else { EnsureStep::Download },
    {
        if present { EnsureStep::Present } else { EnsureStep::Download }
    }

    /// What stands in for an asset of a synthetic run: one line, many times.
    pub fn synthetic_asset(name: &str) -> (content: String)
        ensures
            content@ == many("synthetic asset "@ + name@ + "\n"@, SYNTHETIC_LINES as nat),
            content@ == many("synthetic asset "@ + name@ + "\n"@, 1024),
    {
        let mut line = concat2("synthetic asset ", name);
        line.append("\n");
        let mut content = String::new();
        let mut i: usize = 0;
        while i < SYNTHETIC_LINES
            invariant
                i <= SYNTHETIC_LINES,
                line@ == "synthetic asset "@ + name@ + "\n"@,
                content@ == many(line@, i as nat),
            decreases SYNTHETIC_LINES - i,
        {
            content.append(line.as_str());
            i = i + 1;
        }
        content
    }

    /// The message for an asset that could not be fetched.
    pub fn fetch_failure(name: &str, key: &str) -> (message: String)
        ensures
            message@ == "fetching asset "@ + name@ + " from "@ + key@,
    {
        let mut message = concat2("fetching asset ", name);
        message.append(" from ");
        message.append(key);
        message
    }
}

/// The first failure is that of the first result that is one, and there is none
/// only where no result is one.
pub proof fn law_first_failure_is_first(results: Seq<Result<(), String>>)
    ensures
        match first_failure(results) {
            Some(error) => exists|i: int|
                0 <= i < results.len() && #[trigger] results[i] == Err::<(), String>(error)
                    && forall|j: int| 0 <= j < i ==> (#[trigger] results[j]) is Ok,
            None => forall|j: int| 0 <= j < results.len() ==> (#[trigger] results[j]) is Ok,
        },
    decreases results.len(),
{
    if results.len() > 0 {
        let shorter = results.drop_last();
        law_first_failure_is_first(shorter);
        assert forall|j: int| 0 <= j < shorter.len() implies #[trigger] results[j] == shorter[j] by {}
        match first_failure(shorter) {
            Some(error) => {
                let i = choose|i: int|
                    0 <= i < shorter.len() && #[trigger] shorter[i] == Err::<(), String>(error)
                        && forall|j: int| 0 <= j < i ==> (#[trigger] shorter[j]) is Ok;
                assert(results[i] == shorter[i]);
                assert forall|j: int| 0 <= j < i implies (#[trigger] results[j]) is Ok by {
                    assert(results[j] == shorter[j]);
                }
            },
            None => {
                assert(results[results.len() - 1] == results.last());
            },
        }
    }
}

/// A run starts in this order: once it is found its state is set up, then it is
/// recorded as running, then its assets are made available, and only when all
/// of them are is it entered.
pub proof fn law_starts_in_order(
    phases: Seq<StartPhase>,
    events: Seq<StartEvent>,
    actions: Seq<StartAction>,
    n: int,
)
    requires
        is_history(phases, events, actions),
        0 <= n < events.len(),
    ensures
        actions[n] is SetUp <==> n == 0 && events[0] matches StartEvent::Record(Some(_)),
        actions[n] matches StartAction::AppendStatus(status) ==> n == 1 && status
            == RunStatus::Running,
        n == 1 && actions[0] is SetUp && events[1] is Done ==> actions[1] is AppendStatus,
        actions[n] is EnsureAssets <==> n == 2 && actions[1] is AppendStatus && events[2] is Done,
        actions[n] is Activate <==> n == 3 && actions[2] is EnsureAssets && (
        events[3] matches StartEvent::Assets(results) && forall|j: int|
            0 <= j < results@.len() ==> (#[trigger] results@[j]) is Ok),
{
    lemma_phase_at(phases, events, actions, n);
    assert(expects(phases[n], events[n]) && steps(phases[n], events[n], phases[n + 1], actions[n]));
    if n > 0 {
        lemma_phase_at(phases, events, actions, n - 1);
        assert(expects(phases[n - 1], events[n - 1]) && steps(
            phases[n - 1],
            events[n - 1],
            phases[n],
            actions[n - 1],
        ));
    }
    if let StartEvent::Assets(results) = events[n] {
        law_first_failure_is_first(results@);
    }
}

proof fn lemma_phase_at(
    phases: Seq<StartPhase>,
    events: Seq<StartEvent>,
    actions: Seq<StartAction>,
    n: int,
)
    requires
        is_history(phases, events, actions),
        0 <= n < phases.len(),
    ensures
        phases[n] is Fetching <==> n == 0,
        phases[n] is SettingUp ==> n == 1,
        phases[n] is Appending ==> n == 2,
        phases[n] is Ensuring ==> n == 3,
    decreases n,
{
    if n > 0 {
        lemma_phase_at(phases, events, actions, n - 1);
        assert(expects(phases[n - 1], events[n - 1]) && steps(
            phases[n - 1],
            events[n - 1],
            phases[n],
            actions[n - 1],
        ));
    }
}

/// A start that fails tells why: that the run is not found, or the message of
/// the step that failed, or that of the first asset that could not be made
/// available.
pub proof fn law_failed_start_tells_why(
    phases: Seq<StartPhase>,
    events: Seq<StartEvent>,
    actions: Seq<StartAction>,
    n: int,
)
    requires
        is_history(phases, events, actions),
        0 <= n < events.len(),
    ensures
        events[n] matches StartEvent::Record(None) ==> (actions[n] matches StartAction::Fail(message)
            && message@ == "run not found"@),
        actions[n] matches StartAction::Fail(message) ==> {
            ||| events[n] matches StartEvent::Record(None) && message@ == "run not found"@
            ||| events[n] == StartEvent::Failed(message)
            ||| n > 0 && actions[n - 1] is TakeDown && events[n - 1] == StartEvent::Failed(message)
            ||| n > 0 && actions[n - 1] is TakeDown && (
            events[n - 1] matches StartEvent::Assets(results) && first_failure(results@) == Some(
                message,
            ))
        },
        events[n] is Failed ==> actions[n] is Fail || actions[n] is TakeDown,
        n < 2 ==> (events[n] matches StartEvent::Failed(error) ==> actions[n] == StartAction::Fail(
            error,
        )),
        n == 2 && events[n] is Failed ==> actions[n] is TakeDown,
        actions[n] is TakeDown && n + 1 < events.len() ==> actions[n + 1] is Fail,
        actions[n] is Fail || actions[n] is Activate ==> n + 1 == events.len(),
{
    lemma_phase_at(phases, events, actions, n);
    assert(expects(phases[n], events[n]) && steps(phases[n], events[n], phases[n + 1], actions[n]));
    if n > 0 {
        assert(expects(phases[n - 1], events[n - 1]) && steps(
            phases[n - 1],
            events[n - 1],
            phases[n],
            actions[n - 1],
        ));
    }
    if n + 1 < events.len() {
        assert(expects(phases[n + 1], events[n + 1]) && steps(
            phases[n + 1],
            events[n + 1],
            phases[n + 2],
            actions[n + 1],
        ));
    }
}

/// A text many times over is that text and nothing else: character `k` of
/// repetition `i` is character `k` of the text.
pub proof fn law_many_times_over(text: Seq<char>, times: nat, i: int, k: int)
    requires
        0 <= i < times,
        0 <= k < text.len(),
    ensures
        many(text, times).len() == times * text.len(),
        0 <= i * text.len() + k < many(text, times).len(),
        many(text, times)[i * text.len() + k] == text[k],
    decreases times,
{
    let shorter = (times - 1) as nat;
    lemma_many_len(text, shorter);
    lemma_many_len(text, times);
    let n = text.len() as int;
    if i < shorter {
        law_many_times_over(text, shorter, i, k);
    } else {
        assert(i == shorter);
        assert(many(text, times)[many(text, shorter).len() + k] == text[k]);
    }
    assert(i * n + k < times * n) by (nonlinear_arith)
        requires
            0 <= i < times,
            0 <= k < n,
    ;
    assert(0 <= i * n) by (nonlinear_arith)
        requires
            0 <= i,
            0 <= n,
    ;
}

proof fn lemma_many_len(text: Seq<char>, times: nat)
    ensures
        many(text, times).len() == times * text.len(),
    decreases times,
{
    let n = text.len() as int;
    if times > 0 {
        lemma_many_len(text, (times - 1) as nat);
        assert((times - 1) * n + n == times * n) by (nonlinear_arith);
    } else {
        assert(0 * n == 0) by (nonlinear_arith);
    }
}

/// The assets of a run are kept in a directory of the run's own.
pub proof fn law_assets_of_a_run(root: Seq<char>, run_id: u128)
    requires
        root.len() > 0,
        root.last() != '/',
    ensures
        assets_dir_spec(root, run_id) == root + seq!['/'] + id_text_spec(run_id) + seq!['/']
            + "assets"@,
{
    reveal_strlit("assets");
    crate::ids::lemma_simple_text_len(run_id);
    crate::ids::lemma_be_bytes_len(run_id as nat, 16);
    let bytes = crate::ids::be_bytes(run_id as nat, 16);
    crate::text::law_hexadecimal_digits(bytes, 0);
    crate::text::law_hexadecimal_digits(bytes, 15);
    let name = id_text_spec(run_id);
    assert(name[0] == crate::ids::simple_text(run_id)[0]);
    assert(name.last() == crate::ids::simple_text(run_id)[31]);
    crate::text::law_path_ends_in_its_name(root, name);
    let dir = joined(root, name);
    assert(dir.last() == name.last());
    crate::text::law_path_ends_in_its_name(dir, "assets"@);
}

/// Who may start: a run begins to start exactly when the server does not shut
/// down and the run is not active; it then counts once more among those that
/// shutdown waits for. A refusal changes nothing and says which of the two it
/// was.
pub proof fn law_who_may_start(
    before: RunExecutor,
    id: u128,
    result: Result<StartRun, String>,
    after: RunExecutor,
)
    requires
        begins(before, id, result, after),
    ensures
        result is Ok <==> !before.is_closed() && !before.active().contains_key(id),
        result matches Ok(start) ==> start.id == id && start.phase is Fetching && after.waited_for()
            == before.waited_for().insert(id),
        result is Err ==> after.waited_for() == before.waited_for(),
        result matches Err(message) ==> message@ == if before.is_closed() {
            "server is shutting down; new runs are not accepted"@
        } else {
            "run is already active"@
        },
        after.active() == before.active(),
        after.is_closed() == before.is_closed(),
{
}

/// A run that is entered is active with the configuration of its record, and
/// the others stay as they are; its client learns the training configuration of
/// the record and the names of its assets, in order.
pub proof fn law_entered_with_its_record(
    before: RunExecutor,
    start: StartRun,
    initialization: RunInitialization,
    after: RunExecutor,
)
    requires
        enters(before, start, initialization, after),
    ensures
        start.record matches Some(record) && {
            &&& after.active().contains_key(start.id)
            &&& after.active()[start.id] == record.data_config
            &&& initialization.train_config@ == record.train_config@
            &&& initialization.assets@.len() == record.data_config.assets@.len()
            &&& forall|i: int|
                0 <= i < initialization.assets@.len() ==> (#[trigger] initialization.assets@[i])@
                    == record.data_config.assets@[i].0@
        },
        forall|other: u128|
            other != start.id ==> (#[trigger] after.active().contains_key(other)
                <==> before.active().contains_key(other)),
        forall|other: u128|
            other != start.id && #[trigger] before.active().contains_key(other)
                ==> after.active()[other] == before.active()[other],
        after.waited_for() == before.waited_for().insert(start.id),
        after.is_closed() == before.is_closed(),
{
}

/// A run that is finished has succeeded and is active no longer, and the others
/// stay as they are; a run that is not active is unknown.
pub proof fn law_finished_run_has_succeeded(
    before: RunExecutor,
    id: u128,
    result: Result<RunStatus, String>,
    after: RunExecutor,
)
    requires
        leaves(before, id, result, after),
    ensures
        result is Ok <==> before.active().contains_key(id),
        result matches Ok(status) ==> status is Succeeded && !after.active().contains_key(id),
        result matches Err(message) ==> message@ == "unknown run"@,
        forall|other: u128|
            other != id ==> (#[trigger] after.active().contains_key(other)
                <==> before.active().contains_key(other)),
        forall|other: u128|
            other != id && #[trigger] before.active().contains_key(other) ==> after.active()[other]
                == before.active()[other],
        after.waited_for() == before.waited_for(),
        after.is_closed() == before.is_closed(),
{
}

} // verus!
