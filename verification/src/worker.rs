//! The client daemon: startup, supervision and the dispatch of samples to the
//! transform workers.
use crate::data::Work;
use crate::text::{chars_of, concat2, decimal, decimal_spec};
use vstd::prelude::*;
use vstd::string::*;

verus! {

/// How long connecting may take, in seconds.
pub const CONNECT_TIMEOUT_SECONDS: u64 = 10;

/// How long starting may take, in seconds.
pub const STARTUP_TIMEOUT_SECONDS: u64 = 120;

/// The largest message that is decoded, in bytes.
pub const MAX_DECODING_BYTES: usize = 67_136_000;

/// What a daemon is started with.
pub struct Options {
    pub run_id: String,
    pub addr: String,
    pub root: String,
    pub ranks: usize,
    pub factor: usize,
    pub num_workers: usize,
}

impl Options {
    /// How many batches may be under way at once. All three counts must be
    /// positive, and the product must be a number of this machine.
    pub fn capacity(&self) -> (capacity: Result<usize, String>)
        ensures
            match capacity {
                Ok(capacity) => {
                    &&& self.ranks > 0 && self.factor > 0 && self.num_workers > 0
                    &&& capacity == self.ranks * self.factor
                },
                Err(message) => if self.ranks == 0 || self.factor == 0 {
                    message@ == "ranks and prefetch_factor must be positive"@
                } else if self.num_workers == 0 {
                    message@ == "num_workers must be positive"@
                } else {
                    self.ranks * self.factor > usize::MAX && message@
                        == "prefetch capacity overflow"@
                },
            },
    {
        if !(self.ranks > 0 && self.factor > 0) {
            return Err("ranks and prefetch_factor must be positive".to_owned());
        }
        if !(self.num_workers > 0) {
            return Err("num_workers must be positive".to_owned());
        }
        match self.ranks.checked_mul(self.factor) {
            Some(capacity) => Ok(capacity),
            None => Err("prefetch capacity overflow".to_owned()),
        }
    }
}

/// `text` holds `://` at character `at`.
pub open spec fn scheme_at(text: Seq<char>, at: int) -> bool {
    0 <= at && at + 3 <= text.len() && text[at] == ':' && text[at + 1] == '/' && text[at + 2] == '/'
}

/// `text` names a scheme.
pub open spec fn has_scheme(text: Seq<char>) -> bool {
    exists|at: int| #[trigger] scheme_at(text, at)
}

/// An address with a scheme: `http://` is put in front of one without.
pub fn server_url(addr: &str) -> (url: String)
    ensures
        url@ == if has_scheme(addr@) {
            addr@
        } else {
            "http://"@ + addr@
        },
{
    let chars = chars_of(addr);
    let mut i: usize = 0;
    while i < chars.len()
        invariant
            chars@ == addr@,
            i <= chars@.len(),
            forall|at: int| at < i ==> !#[trigger] scheme_at(addr@, at),
        decreases chars@.len() - i,
    {
        if chars.len() - i >= 3 && chars[i] == ':' && chars[i + 1] == '/' && chars[i + 2] == '/' {
            assert(scheme_at(addr@, i as int));
            return addr.to_owned();
        }
        assert(!scheme_at(addr@, i as int));
        i = i + 1;
    }
    assert(!has_scheme(addr@));
    concat2("http://", addr)
}

/// The file by which a daemon locks its directory. It always remains.
pub const LOCK_FILE: &'static str = "lock";

/// The file that tells how a daemon ended. It remains when the daemon goes.
pub const STATUS_FILE: &'static str = "status";

/// When a daemon starts, whatever an earlier one left in the directory is
/// removed, all but the lock.
pub fn is_stale(name: &str) -> (stale: bool)
    ensures
        stale == (name@ != LOCK_FILE@),
        stale <==> name@ != "lock"@,
{
    let given = name.to_owned();
    let lock = LOCK_FILE.to_owned();
    !(given == lock)
}

/// When a daemon goes, the files of its directory are removed, all but the
/// lock and the final status.
pub fn is_removable(name: &str) -> (removable: bool)
    ensures
        removable == (name@ != LOCK_FILE@ && name@ != STATUS_FILE@),
        removable <==> name@ != "lock"@ && name@ != "status"@,
{
    let given = name.to_owned();
    let lock = LOCK_FILE.to_owned();
    let status = STATUS_FILE.to_owned();
    !(given == lock) && !(given == status)
}

/// What the final status says of an outcome.
pub open spec fn status_text(outcome: Result<(), String>) -> Seq<char> {
    match outcome {
        Ok(_) => "closed"@,
        Err(error) => "failed: "@ + error@,
    }
}

/// The content of the final status of a daemon that ended like this.
pub fn final_status(outcome: &Result<(), String>) -> (content: Vec<u8>)
    ensures
        content@ == vstd::utf8::encode_utf8(status_text(*outcome)),
        outcome is Ok ==> content@ == vstd::utf8::encode_utf8("closed"@),
        outcome matches Err(error) ==> content@ == vstd::utf8::encode_utf8("failed: "@ + error@),
{
    match outcome {
        Ok(()) => "closed".as_bytes_vec(),
        Err(error) => concat2("failed: ", error.as_str()).as_str().as_bytes_vec(),
    }
}

/// The final status tells the outcome: whether the daemon failed, and with
/// which message.
pub proof fn law_status_tells_the_outcome(a: Result<(), String>, b: Result<(), String>)
    requires
        status_text(a) == status_text(b),
    ensures
        a is Ok <==> b is Ok,
        a matches Err(x) ==> (b matches Err(y) && x@ == y@),
{
    reveal_strlit("closed");
    reveal_strlit("failed: ");
    let (x, y) = (status_text(a), status_text(b));
    if a is Ok {
        assert(x[0] == 'c');
    } else {
        assert(x[0] == 'f');
        assert(x.skip(8) =~= (a->Err_0)@);
    }
    if b is Ok {
        assert(y[0] == 'c');
    } else {
        assert(y[0] == 'f');
        assert(y.skip(8) =~= (b->Err_0)@);
    }
}

/// A file of a daemon's directory.
pub struct ResourceFile {
    pub name: String,
    pub content: Vec<u8>,
}

/// The file has this name and this content.
pub open spec fn is_file(file: ResourceFile, name: Seq<char>, content: Seq<u8>) -> bool {
    file.name@ == name && file.content@ == content
}

/// The files by which the ranks find a daemon: a secret, the name of the
/// semaphore and the number of ranks.
pub fn resource_files(auth: Vec<u8>, semaphore_name: &str, ranks: usize) -> (files: Vec<
    ResourceFile,
>)
    ensures
        files@.len() == 3,
        is_file(files@[0], "auth"@, auth@),
        is_file(files@[1], "semaphore"@, vstd::utf8::encode_utf8(semaphore_name@)),
        is_file(files@[2], "ranks"@, vstd::utf8::encode_utf8(decimal_spec(ranks as nat))),
        files@[0].name@ == "auth"@ && files@[0].content@ == auth@,
        files@[1].name@ == "semaphore"@ && files@[1].content@ == vstd::utf8::encode_utf8(
            semaphore_name@,
        ),
        files@[2].name@ == "ranks"@ && files@[2].content@ == vstd::utf8::encode_utf8(
            decimal_spec(ranks as nat),
        ),
{
    let mut files: Vec<ResourceFile> = Vec::new();
    files.push(ResourceFile { name: "auth".to_owned(), content: auth });
    files.push(
        ResourceFile { name: "semaphore".to_owned(), content: semaphore_name.as_bytes_vec() },
    );
    files.push(
        ResourceFile {
            name: "ranks".to_owned(),
            content: decimal(ranks as u64).as_str().as_bytes_vec(),
        },
    );
    files
}

/// What happens while a daemon is started.
pub enum LaunchEvent {
    /// The directory, its lock and its files are there.
    ResourcesReady,
    /// The daemon's thread runs.
    Spawned,
    /// The daemon reports that the run is initialized, or why it is not.
    Reported(Result<(), String>),
    /// The daemon is gone without a report.
    Silent,
    /// The last action failed.
    Failed(String),
}

/// What to do next while a daemon is started.
pub enum LaunchAction {
    /// Lock and fill the directory, with a budget of this many batches.
    CreateResources { capacity: usize },
    /// Start the daemon's thread.
    Spawn,
    /// Wait for the daemon's report.
    AwaitReport,
    /// The daemon is started.
    Started,
    /// Stop the daemon and join its thread, then fail with this message.
    ShutDown(String),
    /// The daemon is not started.
    Fail(String),
}

#[derive(Clone, Copy, Debug, PartialEq, Eq, Structural)]
pub enum LaunchStage {
    Preparing,
    Spawning,
    Awaiting,
    Over,
}

/// A daemon that is being started.
pub struct Launch {
    pub stage: LaunchStage,
}

/// An event makes sense at a stage.
pub open spec fn launch_expects(stage: LaunchStage, event: LaunchEvent) -> bool {
    match stage {
        LaunchStage::Preparing => event is ResourcesReady || event is Failed,
        LaunchStage::Spawning => event is Spawned || event is Failed,
        LaunchStage::Awaiting => event is Reported || event is Silent,
        LaunchStage::Over => false,
    }
}

/// What an event leads to.
pub open spec fn launch_steps(
    stage: LaunchStage,
    event: LaunchEvent,
    next: LaunchStage,
    action: LaunchAction,
) -> bool {
    match event {
        LaunchEvent::ResourcesReady => next == LaunchStage::Spawning && action is Spawn,
        LaunchEvent::Spawned => next == LaunchStage::Awaiting && action is AwaitReport,
        LaunchEvent::Reported(Ok(_)) => next == LaunchStage::Over && action is Started,
        LaunchEvent::Reported(Err(error)) => next == LaunchStage::Over && action
            == LaunchAction::ShutDown(error),
        LaunchEvent::Silent => next == LaunchStage::Over && (
        action matches LaunchAction::ShutDown(message) && message@
            == "daemon stopped during startup"@),
        LaunchEvent::Failed(error) => next == LaunchStage::Over && action == LaunchAction::Fail(
            error,
        ),
    }
}

impl Launch {
    /// Begins to start a daemon: its options must make sense.
    pub fn start(options: &Options) -> (begun: Result<(Launch, LaunchAction), String>)
        ensures
            match begun {
                Ok((launch, action)) => {
                    &&& options.ranks > 0 && options.factor > 0 && options.num_workers > 0
                    &&& launch.stage == LaunchStage::Preparing
                    &&& action == (LaunchAction::CreateResources {
                        capacity: (options.ranks * options.factor) as usize,
                    })
                    &&& options.ranks * options.factor <= usize::MAX
                },
                Err(message) => if options.ranks == 0 || options.factor == 0 {
                    message@ == "ranks and prefetch_factor must be positive"@
                } else if options.num_workers == 0 {
                    message@ == "num_workers must be positive"@
                } else {
                    options.ranks * options.factor > usize::MAX && message@
                        == "prefetch capacity overflow"@
                },
            },
    {
        match options.capacity() {
            Ok(capacity) => Ok(
                (
                    Launch { stage: LaunchStage::Preparing },
                    LaunchAction::CreateResources { capacity },
                ),
            ),
            Err(message) => Err(message),
        }
    }

    /// One step: takes what happened and says what to do next.
    pub fn step(&mut self, event: LaunchEvent) -> (action: LaunchAction)
        requires
            launch_expects(old(self).stage, event),
        ensures
            launch_steps(old(self).stage, event, final(self).stage, action),
    {
        match event {
            LaunchEvent::ResourcesReady => {
                self.stage = LaunchStage::Spawning;
                LaunchAction::Spawn
            },
            LaunchEvent::Spawned => {
                self.stage = LaunchStage::Awaiting;
                LaunchAction::AwaitReport
            },
            LaunchEvent::Reported(Ok(())) => {
                self.stage = LaunchStage::Over;
                LaunchAction::Started
            },
            LaunchEvent::Reported(Err(error)) => {
                self.stage = LaunchStage::Over;
                LaunchAction::ShutDown(error)
            },
            LaunchEvent::Silent => {
                self.stage = LaunchStage::Over;
                LaunchAction::ShutDown("daemon stopped during startup".to_owned())
            },
            LaunchEvent::Failed(error) => {
                self.stage = LaunchStage::Over;
                LaunchAction::Fail(error)
            },
        }
    }
}

/// Whoever is told that a daemon could not be started leaves no thread behind:
/// from the moment the thread runs, failing means to shut it down.
pub proof fn law_no_thread_is_left(
    stage: LaunchStage,
    event: LaunchEvent,
    next: LaunchStage,
    action: LaunchAction,
)
    requires
        launch_expects(stage, event),
        launch_steps(stage, event, next, action),
    ensures
        action is Fail ==> stage != LaunchStage::Awaiting,
        stage == LaunchStage::Awaiting ==> action is Started || action is ShutDown,
        action is Started <==> event matches LaunchEvent::Reported(Ok(_)),
{
}

/// Sends samples to the workers in turn.
pub struct Dispatcher {
    workers: usize,
    next_worker: usize,
}

/// Where a message goes: a sample to the worker whose turn it is, the end to
/// all of them.
pub open spec fn dispatches(
    before: Dispatcher,
    message: Work,
    after: Dispatcher,
    targets: Seq<usize>,
) -> bool {
    &&& after.workers() == before.workers()
    &&& match message {
        Work::Sample { .. } => {
            &&& targets == seq![before.next() as usize]
            &&& after.next() == (before.next() + 1) % before.workers()
        },
        Work::End => {
            &&& targets == Seq::new(before.workers(), |worker: int| worker as usize)
            &&& after.next() == before.next()
        },
    }
}

impl Dispatcher {
    /// How many workers there are.
    pub closed spec fn workers(self) -> nat {
        self.workers as nat
    }

    /// The worker whose turn it is.
    pub closed spec fn next(self) -> nat {
        self.next_worker as nat
    }

    /// There is a worker, and it is the turn of one of them.
    pub open spec fn wf(self) -> bool {
        self.next() < self.workers()
    }

    /// A dispatcher for at least one worker, beginning with the first.
    pub fn new(workers: usize) -> (dispatcher: Dispatcher)
        requires
            workers > 0,
        ensures
            dispatcher.wf(),
            dispatcher.workers() == workers,
            dispatcher.next() == 0,
    {
        Dispatcher { workers, next_worker: 0 }
    }

    /// The workers that a message goes to: a sample to the next in turn, the
    /// end to all of them.
    pub fn dispatch(&mut self, message: &Work) -> (targets: Vec<usize>)
        requires
            old(self).wf(),
        ensures
            final(self).wf(),
            dispatches(*old(self), *message, *final(self), targets@),
    {
        let mut targets: Vec<usize> = Vec::new();
        match message {
            Work::Sample { .. } => {
                targets.push(self.next_worker);
                self.next_worker = (self.next_worker + 1) % self.workers;
                assert(targets@ =~= seq![old(self).next() as usize]);
            },
            Work::End => {
                let mut i: usize = 0;
                while i < self.workers
                    invariant
                        *self == *old(self),
                        i <= self.workers,
                        targets@ == Seq::new(i as nat, |k: int| k as usize),
                    decreases self.workers - i,
                {
                    targets.push(i);
                    i = i + 1;
                    assert(targets@ =~= Seq::new(i as nat, |k: int| k as usize));
                }
                assert(targets@ =~= Seq::new(self.workers(), |k: int| k as usize));
            },
        }
        targets
    }
}

/// A dispatcher's history: the states it went through, the messages and where
/// each went.
pub open spec fn is_dispatch_history(
    states: Seq<Dispatcher>,
    messages: Seq<Work>,
    targets: Seq<Seq<usize>>,
) -> bool {
    &&& states.len() == messages.len() + 1
    &&& targets.len() == messages.len()
    &&& states[0].wf()
    &&& states[0].next() == 0
    &&& forall|i: int|
        #![trigger messages[i]]
        0 <= i < messages.len() ==> dispatches(states[i], messages[i], states[i + 1], targets[i])
}

/// How many of the messages are samples.
pub open spec fn samples_in(messages: Seq<Work>) -> nat
    decreases messages.len(),
{
    if messages.len() == 0 {
        0
    } else {
        samples_in(messages.drop_last()) + if messages.last() is Sample { 1nat } else { 0nat }
    }
}

proof fn lemma_turn(
    states: Seq<Dispatcher>,
    messages: Seq<Work>,
    targets: Seq<Seq<usize>>,
    n: int,
)
    requires
        is_dispatch_history(states, messages, targets),
        0 <= n <= messages.len(),
    ensures
        states[n].workers() == states[0].workers(),
        states[n].next() == samples_in(messages.take(n)) % states[0].workers(),
    decreases n,
{
    let workers = states[0].workers();
    if n == 0 {
        assert(0nat % workers == 0) by (nonlinear_arith)
            requires
                workers > 0,
        ;
    } else {
        let sent = samples_in(messages.take(n - 1));
        lemma_turn(states, messages, targets, n - 1);
        assert(messages.take(n).drop_last() =~= messages.take(n - 1));
        assert(dispatches(states[n - 1], messages[n - 1], states[n], targets[n - 1]));
        vstd::arithmetic::div_mod::lemma_add_mod_noop_right(1, sent as int, workers as int);
    }
}

/// Samples go round-robin: of `workers` workers, the sample that comes after
/// `sent` others goes to worker `sent mod workers` alone, and the end goes to
/// all of them.
pub proof fn law_round_robin(
    states: Seq<Dispatcher>,
    messages: Seq<Work>,
    targets: Seq<Seq<usize>>,
    i: int,
)
    requires
        is_dispatch_history(states, messages, targets),
        0 <= i < messages.len(),
    ensures
        targets[i] == match messages[i] {
            Work::Sample { .. } => seq![
                (samples_in(messages.take(i)) % states[0].workers()) as usize,
            ],
            Work::End => Seq::new(states[0].workers(), |worker: int| worker as usize),
        },
{
    lemma_turn(states, messages, targets, i);
    assert(dispatches(states[i], messages[i], states[i + 1], targets[i]));
}

/// What happens to a supervised daemon.
pub enum Event {
    /// The last step of the startup succeeded.
    Done,
    /// The last step of the startup failed.
    StartFailed(String),
    /// The startup took too long.
    StartTimedOut,
    /// The daemon was asked to stop, or the asking side is gone (`Ok`).
    Stop(Result<(), String>),
    /// The data pump ended.
    PumpEnded(Result<(), String>),
    /// The task that writes to the sockets ended.
    SenderEnded(Result<(), String>),
}

/// What to do next.
pub enum Action {
    /// Open the channel to the server.
    Connect,
    /// Ask the server to start the run.
    Initialize,
    /// Hand the server's answer to whoever started the daemon.
    ReportReady,
    /// Accept the connection of one more worker.
    AcceptWorker,
    /// Start the pump and the sender, and say that the daemon is connected.
    Run,
    /// Wait.
    Wait,
    /// Take the startup back and end with this result.
    Exit(Result<(), String>),
    /// Withdraw the announcement, cancel the budget, end the pump and the
    /// sockets, the sender too where it is still at work, and end with this
    /// result.
    ShutDown { abort_sender: bool, result: Result<(), String> },
}

/// How far a daemon has come.
pub enum Stage {
    Connecting,
    Initializing,
    Reporting,
    /// This many workers are still to connect.
    Accepting(usize),
    Running { pump_complete: bool, sender_complete: bool },
    Over,
}

/// A supervised daemon.
pub struct Supervisor {
    pub num_workers: usize,
    pub stage: Stage,
}

/// The daemon is still starting.
pub open spec fn starting(stage: Stage) -> bool {
    stage is Connecting || stage is Initializing || stage is Reporting || stage is Accepting
}

/// An event makes sense at a stage. A task that has ended does not end again.
pub open spec fn expects(stage: Stage, event: Event) -> bool {
    match stage {
        Stage::Over => false,
        Stage::Running { pump_complete, sender_complete } => match event {
            Event::Stop(_) => true,
            Event::PumpEnded(_) => !pump_complete,
            Event::SenderEnded(_) => !sender_complete,
            _ => false,
        },
        _ => event is Done || event is StartFailed || event is StartTimedOut || event is Stop,
    }
}

/// The step after the workers that are left have connected.
pub open spec fn accepting(left: usize) -> (Stage, Action) {
    if left == 0 {
        (Stage::Running { pump_complete: false, sender_complete: false }, Action::Run)
    } else {
        (Stage::Accepting(left), Action::AcceptWorker)
    }
}

/// What an event leads to, where it is not a startup that timed out.
pub open spec fn step_spec(num_workers: usize, stage: Stage, event: Event) -> (Stage, Action) {
    match stage {
        Stage::Running { pump_complete, sender_complete } => match event {
            Event::Stop(result) => (
                Stage::Over,
                Action::ShutDown { abort_sender: !sender_complete, result },
            ),
            Event::PumpEnded(Err(error)) => (
                Stage::Over,
                Action::ShutDown { abort_sender: !sender_complete, result: Err(error) },
            ),
            Event::PumpEnded(Ok(_)) => (
                Stage::Running { pump_complete: true, sender_complete },
                Action::Wait,
            ),
            Event::SenderEnded(Err(error)) => (
                Stage::Over,
                Action::ShutDown { abort_sender: false, result: Err(error) },
            ),
            _ => (Stage::Running { pump_complete, sender_complete: true }, Action::Wait),
        },
        _ => match event {
            Event::Stop(result) => (Stage::Over, Action::Exit(result)),
            Event::StartFailed(error) => (Stage::Over, Action::Exit(Err(error))),
            _ => match stage {
                Stage::Connecting => (Stage::Initializing, Action::Initialize),
                Stage::Initializing => (Stage::Reporting, Action::ReportReady),
                Stage::Reporting => accepting(num_workers),
                Stage::Accepting(left) => accepting((left - 1) as usize),
                _ => (Stage::Over, Action::Wait),
            },
        },
    }
}

/// What an event leads to.
pub open spec fn steps(
    num_workers: usize,
    stage: Stage,
    event: Event,
    next: Stage,
    action: Action,
) -> bool {
    if event is StartTimedOut {
        &&& next is Over
        &&& action matches Action::Exit(Err(message))
        &&& message@ == "daemon startup timed out: deadline has elapsed"@
    } else {
        (next, action) == step_spec(num_workers, stage, event)
    }
}

impl Supervisor {
    /// While workers are still to connect there is at least one, and never
    /// more than there are workers.
    pub open spec fn wf(self) -> bool {
        self.stage matches Stage::Accepting(left) ==> 0 < left <= self.num_workers
    }

    /// A daemon that begins to start, with its first step.
    pub fn new(num_workers: usize) -> (started: (Supervisor, Action))
        ensures
            started.0.wf(),
            started.0 == (Supervisor { num_workers, stage: Stage::Connecting }),
            started.1 == Action::Connect,
    {
        (Supervisor { num_workers, stage: Stage::Connecting }, Action::Connect)
    }

    /// One step: takes what happened and says what to do next.
    pub fn step(&mut self, event: Event) -> (action: Action)
        requires
            old(self).wf(),
            expects(old(self).stage, event),
        ensures
            final(self).wf(),
            final(self).num_workers == old(self).num_workers,
            steps(old(self).num_workers, old(self).stage, event, final(self).stage, action),
    {
        let mut stage = Stage::Over;
        std::mem::swap(&mut stage, &mut self.stage);
        match stage {
            Stage::Running { pump_complete, sender_complete } => match event {
                Event::Stop(result) => Action::ShutDown { abort_sender: !sender_complete, result },
                Event::PumpEnded(Err(error)) => Action::ShutDown {
                    abort_sender: !sender_complete,
                    result: Err(error),
                },
                Event::PumpEnded(Ok(_)) => {
                    self.stage = Stage::Running { pump_complete: true, sender_complete };
                    Action::Wait
                },
                Event::SenderEnded(Err(error)) => Action::ShutDown {
                    abort_sender: false,
                    result: Err(error),
                },
                _ => {
                    self.stage = Stage::Running { pump_complete, sender_complete: true };
                    Action::Wait
                },
            },
            stage => match event {
                Event::Stop(result) => Action::Exit(result),
                Event::StartFailed(error) => Action::Exit(Err(error)),
                Event::StartTimedOut => Action::Exit(
                    Err("daemon startup timed out: deadline has elapsed".to_owned()),
                ),
                _ => match stage {
                    Stage::Connecting => {
                        self.stage = Stage::Initializing;
                        Action::Initialize
                    },
                    Stage::Initializing => {
                        self.stage = Stage::Reporting;
                        Action::ReportReady
                    },
                    Stage::Reporting => self.accept(self.num_workers),
                    Stage::Accepting(left) => self.accept(left - 1),
                    _ => Action::Wait,
                },
            },
        }
    }

    fn accept(&mut self, left: usize) -> (action: Action)
        requires
            left <= old(self).num_workers,
        ensures
            final(self).wf(),
            final(self).num_workers == old(self).num_workers,
            (final(self).stage, action) == accepting(left),
    {
        if left == 0 {
            self.stage = Stage::Running { pump_complete: false, sender_complete: false };
            Action::Run
        } else {
            self.stage = Stage::Accepting(left);
            Action::AcceptWorker
        }
    }
}

/// A supervised daemon's history.
pub open spec fn is_history(
    num_workers: usize,
    stages: Seq<Stage>,
    events: Seq<Event>,
    actions: Seq<Action>,
) -> bool {
    &&& stages.len() == events.len() + 1
    &&& actions.len() == events.len()
    &&& stages[0] is Connecting
    &&& forall|i: int|
        #![trigger events[i]]
        0 <= i < events.len() ==> expects(stages[i], events[i]) && steps(
            num_workers,
            stages[i],
            events[i],
            stages[i + 1],
            actions[i],
        )
}

/// How many workers were accepted or are being accepted.
pub open spec fn accepts(actions: Seq<Action>) -> nat
    decreases actions.len(),
{
    if actions.len() == 0 {
        0
    } else {
        accepts(actions.drop_last()) + if actions.last() is AcceptWorker { 1nat } else { 0nat }
    }
}

/// The daemon runs only when the server has started the run, the starter has
/// been told, and exactly `num_workers` workers have connected.
pub proof fn law_runs_with_all_workers(
    num_workers: usize,
    stages: Seq<Stage>,
    events: Seq<Event>,
    actions: Seq<Action>,
)
    requires
        is_history(num_workers, stages, events, actions),
    ensures
        stages.last() is Running ==> accepts(actions) == num_workers,
        stages.last() matches Stage::Accepting(left) ==> 0 < left <= num_workers && accepts(actions)
            + left == num_workers + 1,
        stages.last() is Connecting || stages.last() is Initializing || stages.last() is Reporting
            ==> accepts(actions) == 0,
        stages.last() is Initializing || stages.last() is Reporting || stages.last() is Accepting
            || stages.last() is Running ==> actions.contains(Action::Initialize),
        stages.last() is Reporting || stages.last() is Accepting || stages.last() is Running
            ==> actions.contains(Action::ReportReady),
    decreases events.len(),
{
    if events.len() > 0 {
        let n = events.len() - 1;
        assert(events[n] == events.last());
        assert forall|i: int|
            #![trigger events.drop_last()[i]]
            0 <= i < n implies expects(stages.drop_last()[i], events.drop_last()[i]) && steps(
            num_workers,
            stages.drop_last()[i],
            events.drop_last()[i],
            stages.drop_last()[i + 1],
            actions.drop_last()[i],
        ) by {
            assert(events[i] == events.drop_last()[i]);
        }
        law_runs_with_all_workers(
            num_workers,
            stages.drop_last(),
            events.drop_last(),
            actions.drop_last(),
        );
        assert(stages.drop_last().last() == stages[n]);
        assert(actions[n] == actions.last());
        assert forall|action: Action| #[trigger]
            actions.drop_last().contains(action) implies actions.contains(action) by {
            let i = actions.drop_last().index_of(action);
            assert(actions[i] == action);
        }
    }
}

/// A running daemon ends only when it is asked to or when a task fails, and
/// then it is shut down; the end of the data alone keeps it running.
pub proof fn law_running_until_stopped(
    num_workers: usize,
    stage: Stage,
    event: Event,
    next: Stage,
    action: Action,
)
    requires
        stage is Running,
        expects(stage, event),
        steps(num_workers, stage, event, next, action),
    ensures
        next is Running <==> (event matches Event::PumpEnded(Ok(_))
            || event matches Event::SenderEnded(Ok(_))),
        !(next is Running) ==> next is Over && action is ShutDown,
{
}

/// What is known of a daemon from outside.
pub fn check(outcome: Option<Result<(), String>>, thread_alive: bool) -> (result: Result<
    (),
    String,
>)
    ensures
        match outcome {
            Some(Err(error)) => result == Err::<(), String>(error),
            Some(Ok(())) => result matches Err(message) && message@
                == "TensorLane daemon is closed"@,
            None => match result {
                Ok(()) => thread_alive,
                Err(message) => !thread_alive && message@
                    == "TensorLane daemon stopped unexpectedly"@,
            },
        },
{
    match outcome {
        Some(Err(error)) => Err(error),
        Some(Ok(())) => Err("TensorLane daemon is closed".to_owned()),
        None => if thread_alive {
            Ok(())
        } else {
            Err("TensorLane daemon stopped unexpectedly".to_owned())
        },
    }
}

/// Whether a daemon that is well is connected to its workers.
pub fn ready(
    outcome: Option<Result<(), String>>,
    thread_alive: bool,
    connected: bool,
) -> (result: Result<bool, String>)
    ensures
        match result {
            Ok(value) => outcome is None && thread_alive && value == connected,
            Err(message) => match outcome {
                Some(Err(error)) => message == error,
                Some(Ok(())) => message@ == "TensorLane daemon is closed"@,
                None => !thread_alive && message@ == "TensorLane daemon stopped unexpectedly"@,
            },
        },
{
    match check(outcome, thread_alive) {
        Ok(()) => Ok(connected),
        Err(error) => Err(error),
    }
}

/// What stopping sends to the daemon: an error only where one is given.
pub fn stop_message(error: Option<String>) -> (result: Result<(), String>)
    ensures
        result == match error {
            Some(message) => Err::<(), String>(message),
            None => Ok(()),
        },
{
    match error {
        Some(message) => Err(message),
        None => Ok(()),
    }
}

/// An address has a scheme exactly when `://` stands somewhere in it, whatever
/// stands before and behind.
pub proof fn law_scheme_is_anywhere(text: Seq<char>, before: Seq<char>, behind: Seq<char>)
    ensures
        has_scheme(before + seq![':', '/', '/'] + behind),
        has_scheme(text) ==> exists|at: int|
            0 <= at <= text.len() - 3 && #[trigger] text.subrange(at, at + 3) == seq![
                ':',
                '/',
                '/',
            ],
{
    let whole = before + seq![':', '/', '/'] + behind;
    assert(scheme_at(whole, before.len() as int));
    if has_scheme(text) {
        let at = choose|at: int| #[trigger] scheme_at(text, at);
        assert(text.subrange(at, at + 3) =~= seq![':', '/', '/']);
    }
}

/// Starting a daemon goes on step by step, and whoever started it is told the
/// reason of a failure: that of the step that failed, or what the daemon
/// reported; a daemon that is gone without a report is said to have stopped.
pub proof fn law_launch_tells_the_reason(
    stage: LaunchStage,
    event: LaunchEvent,
    next: LaunchStage,
    action: LaunchAction,
)
    requires
        launch_expects(stage, event),
        launch_steps(stage, event, next, action),
    ensures
        event is ResourcesReady ==> action is Spawn && next == LaunchStage::Spawning,
        event is Spawned ==> action is AwaitReport && next == LaunchStage::Awaiting,
        event matches LaunchEvent::Failed(error) ==> action == LaunchAction::Fail(error),
        event matches LaunchEvent::Reported(Err(error)) ==> action == LaunchAction::ShutDown(error),
        event is Silent ==> (action matches LaunchAction::ShutDown(message) && message@
            == "daemon stopped during startup"@),
        action is Started || action is ShutDown || action is Fail <==> next == LaunchStage::Over,
{
}

/// A daemon ends as it was told to, or with what failed: while it starts it
/// exits, and once it runs it is shut down, in either case with the result that
/// it was stopped with or the error of the step or the task that failed. The
/// sender is ended too exactly when it has not ended itself.
pub proof fn law_ends_as_told(
    num_workers: usize,
    stages: Seq<Stage>,
    events: Seq<Event>,
    actions: Seq<Action>,
    n: int,
)
    requires
        is_history(num_workers, stages, events, actions),
        0 <= n < events.len(),
    ensures
        events[n] matches Event::Stop(told) ==> (actions[n] == Action::Exit(told) || (
        actions[n] matches Action::ShutDown { result, .. } && result == told)),
        events[n] matches Event::StartFailed(error) ==> actions[n] == Action::Exit(Err(error)),
        events[n] is StartTimedOut ==> (actions[n] matches Action::Exit(Err(message)) && message@
            == "daemon startup timed out: deadline has elapsed"@),
        events[n] matches Event::PumpEnded(Err(error)) ==> (
        actions[n] matches Action::ShutDown { result, .. } && result == Err::<(), String>(error)),
        events[n] matches Event::SenderEnded(Err(error)) ==> (
        actions[n] matches Action::ShutDown { result, .. } && result == Err::<(), String>(error)),
        events[n] matches Event::PumpEnded(Ok(_)) ==> actions[n] is Wait,
        events[n] matches Event::SenderEnded(Ok(_)) ==> actions[n] is Wait,
        actions[n] matches Action::ShutDown { abort_sender, .. } ==> (abort_sender <==> !exists|k: int|
            0 <= k <= n && #[trigger] events[k] is SenderEnded),
        actions[n] is ShutDown ==> stages[n] is Running,
        actions[n] is Exit ==> starting(stages[n]),
        actions[n] is Exit || actions[n] is ShutDown ==> n + 1 == events.len(),
{
    assert(expects(stages[n], events[n]) && steps(
        num_workers,
        stages[n],
        events[n],
        stages[n + 1],
        actions[n],
    ));
    lemma_sender_at_work(num_workers, stages, events, actions, n);
    if n + 1 < events.len() {
        assert(expects(stages[n + 1], events[n + 1]));
    }
}

proof fn lemma_sender_at_work(
    num_workers: usize,
    stages: Seq<Stage>,
    events: Seq<Event>,
    actions: Seq<Action>,
    n: int,
)
    requires
        is_history(num_workers, stages, events, actions),
        0 <= n < stages.len(),
    ensures
        starting(stages[n]) ==> forall|k: int| 0 <= k < n ==> !(#[trigger] events[k] is SenderEnded),
        stages[n] matches Stage::Running { sender_complete, .. } ==> (sender_complete <==> exists|
            k: int,
        |
            0 <= k < n && #[trigger] events[k] is SenderEnded),
    decreases n,
{
    if n > 0 {
        lemma_sender_at_work(num_workers, stages, events, actions, n - 1);
        assert(expects(stages[n - 1], events[n - 1]) && steps(
            num_workers,
            stages[n - 1],
            events[n - 1],
            stages[n],
            actions[n - 1],
        ));
    }
}

proof fn lemma_starting_stage(
    num_workers: usize,
    stages: Seq<Stage>,
    events: Seq<Event>,
    actions: Seq<Action>,
    n: int,
)
    requires
        is_history(num_workers, stages, events, actions),
        0 <= n < stages.len(),
        n <= 3 + num_workers,
        forall|k: int| 0 <= k < n ==> #[trigger] events[k] is Done,
    ensures
        n == 0 ==> stages[n] is Connecting,
        n == 1 ==> stages[n] is Initializing,
        n == 2 ==> stages[n] is Reporting,
        3 <= n < 3 + num_workers ==> (stages[n] matches Stage::Accepting(left) && left
            == num_workers - (n - 3)),
        n == 3 + num_workers ==> stages[n] is Running,
    decreases n,
{
    if n > 0 {
        lemma_starting_stage(num_workers, stages, events, actions, n - 1);
        assert(expects(stages[n - 1], events[n - 1]) && steps(
            num_workers,
            stages[n - 1],
            events[n - 1],
            stages[n],
            actions[n - 1],
        ));
        assert(events[n - 1] is Done);
    }
}

/// A daemon starts in this order: once it is connected the run is initialized,
/// then whoever started it is told, then as many workers as there are to be
/// are accepted one by one, and then it runs.
pub proof fn law_starts_in_order(
    num_workers: usize,
    stages: Seq<Stage>,
    events: Seq<Event>,
    actions: Seq<Action>,
    n: int,
)
    requires
        is_history(num_workers, stages, events, actions),
        0 <= n < events.len(),
        n <= 2 + num_workers,
        forall|k: int| 0 <= k <= n ==> #[trigger] events[k] is Done,
    ensures
        n == 0 ==> actions[n] is Initialize,
        n == 1 ==> actions[n] is ReportReady,
        2 <= n < 2 + num_workers ==> actions[n] is AcceptWorker,
        n == 2 + num_workers ==> actions[n] is Run,
{
    lemma_starting_stage(num_workers, stages, events, actions, n);
    assert(expects(stages[n], events[n]) && steps(
        num_workers,
        stages[n],
        events[n],
        stages[n + 1],
        actions[n],
    ));
    assert(events[n] is Done);
}

/// The final status of a daemon that ended well is one word; that of one that
/// failed is `failed: ` and the message.
pub proof fn law_status_text(outcome: Result<(), String>)
    ensures
        outcome is Ok ==> status_text(outcome) == "closed"@,
        outcome matches Err(error) ==> status_text(outcome) == "failed: "@ + error@,
{
}

/// A message goes where it should: a sample to one worker, whose number is that
/// of the turn, after which it is the turn of the next and behind the last of
/// the first; the end to every worker once, which passes nobody's turn.
pub proof fn law_turns(before: Dispatcher, message: Work, after: Dispatcher, targets: Seq<usize>)
    requires
        before.wf(),
        before.workers() <= usize::MAX,
        dispatches(before, message, after, targets),
    ensures
        after.workers() == before.workers(),
        message is Sample ==> {
            &&& targets.len() == 1
            &&& targets[0] == before.next()
            &&& after.next() == if before.next() + 1 == before.workers() {
                0
            } else {
                before.next() + 1
            }
        },
        message is End ==> {
            &&& targets.len() == before.workers()
            &&& forall|i: int| 0 <= i < targets.len() ==> #[trigger] targets[i] == i
            &&& after.next() == before.next()
        },
{
    let n = before.workers() as int;
    let p = before.next() as int;
    if p + 1 == n {
        assert((p + 1) % n == 0) by (nonlinear_arith)
            requires
                p + 1 == n,
                n > 0,
        ;
    } else {
        assert((p + 1) % n == p + 1) by (nonlinear_arith)
            requires
                0 <= p + 1 < n,
        ;
    }
}

} // verus!
