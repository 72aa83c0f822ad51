//! The stream in which a training process reports metrics and files: the run
//! first, then each metric, and each file as a description and its chunks.
use crate::artifacts::{
    describe, guessed_type, is_description, is_file_report, job, job_spec, report_file, FileReport, Job,
    ListedFile, MetricCommand,
};
use crate::metrics::{ArtifactMetric, ScalarMetric};
use crate::upload_session::chunk_of;
use std::collections::VecDeque;
use vstd::prelude::*;

verus! {

/// A message of the stream.
pub enum Message {
    /// The run that reports.
    Run(String),
    Metric(ScalarMetric),
    /// A file follows, and this describes it.
    Artifact(ArtifactMetric),
    /// Bytes of the file that was described last.
    Chunk(Vec<u8>),
}

/// What happened.
pub enum Event {
    /// The message was sent.
    Sent,
    /// Something is to be reported.
    Command(MetricCommand),
    /// Nothing more will be reported.
    Closed,
    /// The directory was listed: its files, in the order in which they are
    /// sent.
    Listed(Vec<ListedFile>),
    /// The file has this many bytes.
    Size(u64),
    /// The file is open.
    Opened,
    /// This many bytes were read into a buffer.
    Read(Vec<u8>, usize),
    /// The last action failed, with this message.
    Failed(String),
}

/// Where a file is: at a path, or under a number of the last listing.
pub struct Place {
    pub path: String,
    pub listed: Option<usize>,
}

/// The place is that of a reported file.
pub open spec fn is_place(place: Place, report: FileReport) -> bool {
    place.path@ == report.path@ && place.listed == report.listed
}

fn place_of(report: &FileReport) -> (place: Place)
    ensures
        is_place(place, *report),
{
    Place { path: report.path.clone(), listed: report.listed }
}

/// What to do next.
pub enum Action {
    Send(Message),
    AwaitCommand,
    /// List this directory.
    List(String),
    /// Ask for the size of this file.
    Measure(Place),
    /// Open this file.
    Open(Place),
    /// Read from the file.
    Read,
    Finish(Result<(), String>),
}

/// How far a reporter has come.
pub enum Stage {
    /// The run or a metric is being sent.
    Sending,
    Idle,
    /// A directory is being listed, whose files are sent below this name.
    Listing { name: String, step: u64, timestamp_unix_ms: i64 },
    /// The size of this file is asked for.
    Measuring(FileReport),
    /// The description of the file at this place is being sent.
    Describing(Place),
    Opening,
    Reading,
    SendingChunk,
    Over,
}

/// The state of a reporter: its stage, and the files of a directory that are
/// still to be sent.
pub struct State {
    pub stage: Stage,
    pub files: Seq<FileReport>,
}

/// An event makes sense at a stage.
pub open spec fn expects(stage: Stage, event: Event) -> bool {
    match stage {
        Stage::Sending | Stage::Describing(_) | Stage::SendingChunk => event is Sent
            || event is Failed,
        Stage::Idle => event is Command || event is Closed,
        Stage::Listing { .. } => event is Listed || event is Failed,
        Stage::Measuring(_) => event is Size || event is Failed,
        Stage::Opening => event is Opened || event is Failed,
        Stage::Reading => event is Failed || (event matches Event::Read(buffer, count) && count
            <= buffer@.len()),
        Stage::Over => false,
    }
}

/// The next file is taken up, or the next command awaited.
pub open spec fn proceeds(state: State, next: State, action: Action) -> bool {
    if state.files.len() > 0 {
        &&& next == State {
            stage: Stage::Measuring(state.files[0]),
            files: state.files.drop_first(),
        }
        &&& action matches Action::Measure(place)
        &&& is_place(place, state.files[0])
    } else {
        &&& next == State { stage: Stage::Idle, ..state }
        &&& action == Action::AwaitCommand
    }
}

/// The files of a listed directory as they are reported, in order.
pub open spec fn are_reports(
    found: Seq<ListedFile>,
    name: Seq<char>,
    step: u64,
    timestamp_unix_ms: i64,
    files: Seq<FileReport>,
) -> bool {
    &&& files.len() == found.len()
    &&& forall|i: int|
        0 <= i < files.len() ==> is_file_report(
            #[trigger] files[i],
            found[i],
            name,
            step,
            timestamp_unix_ms,
        )
}

/// One step: from a state and what happened to the next state and what to do.
pub open spec fn steps(state: State, event: Event, next: State, action: Action) -> bool {
    match (state.stage, event) {
        (Stage::Sending, Event::Sent) => proceeds(state, next, action),
        (Stage::Idle, Event::Command(command)) => match job_spec(command) {
            Job::Send(metric) => {
                &&& next == State { stage: Stage::Sending, ..state }
                &&& action == Action::Send(Message::Metric(metric))
            },
            Job::SendFile(report) => {
                &&& next == State { stage: Stage::Measuring(report), ..state }
                &&& action matches Action::Measure(place)
                &&& is_place(place, report)
            },
            Job::SendFiles { path, name, step, timestamp_unix_ms } => {
                &&& next == State {
                    stage: Stage::Listing { name, step, timestamp_unix_ms },
                    ..state
                }
                &&& action == Action::List(path)
            },
        },
        (Stage::Idle, Event::Closed) => {
            &&& next == State { stage: Stage::Over, ..state }
            &&& action == Action::Finish(Ok(()))
        },
        (Stage::Listing { name, step, timestamp_unix_ms }, Event::Listed(found)) => {
            exists|files: Seq<FileReport>| #[trigger]
                are_reports(found@, name@, step, timestamp_unix_ms, files) && proceeds(
                    State { files, ..state },
                    next,
                    action,
                )
        },
        (Stage::Measuring(report), Event::Size(size_bytes)) => {
            &&& next.files == state.files
            &&& (next.stage matches Stage::Describing(place) && is_place(place, report))
            &&& action matches Action::Send(Message::Artifact(artifact))
            &&& is_description(artifact, report, size_bytes)
        },
        (Stage::Describing(place), Event::Sent) => {
            &&& next == State { stage: Stage::Opening, ..state }
            &&& action == Action::Open(place)
        },
        (Stage::Opening, Event::Opened) => {
            &&& next == State { stage: Stage::Reading, ..state }
            &&& action == Action::Read
        },
        (Stage::Reading, Event::Read(buffer, count)) => if count == 0 {
            proceeds(state, next, action)
        } else {
            &&& next == State { stage: Stage::SendingChunk, ..state }
            &&& action matches Action::Send(Message::Chunk(bytes))
            &&& bytes@ == buffer@.take(count as int)
        },
        (Stage::SendingChunk, Event::Sent) => {
            &&& next == State { stage: Stage::Reading, ..state }
            &&& action == Action::Read
        },
        (_, Event::Failed(error)) => {
            &&& next == State { stage: Stage::Over, ..state }
            &&& action == Action::Finish(Err(error))
        },
        _ => false,
    }
}

/// Reports metrics and files.
pub struct Reporter {
    stage: Stage,
    files: VecDeque<FileReport>,
}

impl View for Reporter {
    type V = State;

    closed spec fn view(&self) -> State {
        State { stage: self.stage, files: self.files@ }
    }
}

impl Reporter {
    /// A reporter that begins, with its first message: the run.
    pub fn new(run_id: String) -> (started: (Reporter, Action))
        ensures
            started.0@ == (State { stage: Stage::Sending, files: Seq::empty() }),
            started.1 == Action::Send(Message::Run(run_id)),
    {
        let reporter = Reporter { stage: Stage::Sending, files: VecDeque::new() };
        assert(reporter.files@ =~= Seq::<FileReport>::empty());
        (reporter, Action::Send(Message::Run(run_id)))
    }

    fn proceed(&mut self) -> (action: Action)
        ensures
            proceeds(old(self)@, final(self)@, action),
    {
        let ghost before = self.files@;
        match self.files.pop_front() {
            Some(report) => {
                let place = place_of(&report);
                self.stage = Stage::Measuring(report);
                assert(self.files@ =~= before.drop_first());
                Action::Measure(place)
            },
            None => {
                self.stage = Stage::Idle;
                Action::AwaitCommand
            },
        }
    }

    fn take_files(
        &mut self,
        found: Vec<ListedFile>,
        name: String,
        step: u64,
        timestamp_unix_ms: i64,
    )
        ensures
            are_reports(found@, name@, step, timestamp_unix_ms, final(self)@.files),
            final(self)@.stage == old(self)@.stage,
    {
        let ghost all = found@;
        let mut files: VecDeque<FileReport> = VecDeque::new();
        for file in iter: found
            invariant
                iter.seq() == all,
                all == found@,
                are_reports(
                    all.take(iter.index() as int),
                    name@,
                    step,
                    timestamp_unix_ms,
                    files@,
                ),
        {
            files.push_back(report_file(file, name.as_str(), step, timestamp_unix_ms));
        }
        assert(all.take(all.len() as int) =~= all);
        self.files = files;
    }

    /// One step: takes what happened and says what to do next.
    pub fn step(&mut self, event: Event) -> (action: Action)
        requires
            expects(old(self)@.stage, event),
        ensures
            steps(old(self)@, event, final(self)@, action),
    {
        let mut stage = Stage::Over;
        std::mem::swap(&mut stage, &mut self.stage);
        match (stage, event) {
            (Stage::Sending, Event::Sent) => self.proceed(),
            (Stage::Idle, Event::Command(command)) => match job(command) {
                Job::Send(metric) => {
                    self.stage = Stage::Sending;
                    Action::Send(Message::Metric(metric))
                },
                Job::SendFile(report) => {
                    let place = place_of(&report);
                    self.stage = Stage::Measuring(report);
                    Action::Measure(place)
                },
                Job::SendFiles { path, name, step, timestamp_unix_ms } => {
                    self.stage = Stage::Listing { name, step, timestamp_unix_ms };
                    Action::List(path)
                },
            },
            (Stage::Idle, Event::Closed) => Action::Finish(Ok(())),
            (Stage::Listing { name, step, timestamp_unix_ms }, Event::Listed(found)) => {
                self.take_files(found, name, step, timestamp_unix_ms);
                self.proceed()
            },
            (Stage::Measuring(report), Event::Size(size_bytes)) => {
                self.stage = Stage::Describing(place_of(&report));
                Action::Send(Message::Artifact(describe(report, size_bytes)))
            },
            (Stage::Describing(place), Event::Sent) => {
                self.stage = Stage::Opening;
                Action::Open(place)
            },
            (Stage::Opening, Event::Opened) => {
                self.stage = Stage::Reading;
                Action::Read
            },
            (Stage::Reading, Event::Read(buffer, count)) => match chunk_of(buffer, count) {
                Some(bytes) => {
                    self.stage = Stage::SendingChunk;
                    Action::Send(Message::Chunk(bytes))
                },
                None => self.proceed(),
            },
            (Stage::SendingChunk, Event::Sent) => {
                self.stage = Stage::Reading;
                Action::Read
            },
            (_, Event::Failed(error)) => Action::Finish(Err(error)),
            _ => Action::AwaitCommand,
        }
    }
}

/// A reporter's history: the states it went through, what happened, and what
/// was done, the first action being the one that it began with.
pub open spec fn is_history(
    run_id: String,
    states: Seq<State>,
    events: Seq<Event>,
    actions: Seq<Action>,
) -> bool {
    &&& states.len() == events.len() + 1
    &&& actions.len() == events.len() + 1
    &&& states[0] == (State { stage: Stage::Sending, files: Seq::empty() })
    &&& actions[0] == Action::Send(Message::Run(run_id))
    &&& forall|i: int|
        #![trigger events[i]]
        0 <= i < events.len() ==> expects(states[i].stage, events[i]) && steps(
            states[i],
            events[i],
            states[i + 1],
            actions[i + 1],
        )
}

/// The messages of a stream, in order.
pub open spec fn sent(actions: Seq<Action>) -> Seq<Message>
    decreases actions.len(),
{
    if actions.len() == 0 {
        Seq::empty()
    } else {
        match actions.last() {
            Action::Send(message) => sent(actions.drop_last()).push(message),
            _ => sent(actions.drop_last()),
        }
    }
}

/// All the bytes of the chunks of a stream, in order.
pub open spec fn sent_bytes(messages: Seq<Message>) -> Seq<u8>
    decreases messages.len(),
{
    if messages.len() == 0 {
        Seq::empty()
    } else {
        match messages.last() {
            Message::Chunk(bytes) => sent_bytes(messages.drop_last()) + bytes@,
            _ => sent_bytes(messages.drop_last()),
        }
    }
}

/// All the bytes that were read, in order.
pub open spec fn read_bytes(events: Seq<Event>) -> Seq<u8>
    decreases events.len(),
{
    if events.len() == 0 {
        Seq::empty()
    } else {
        match events.last() {
            Event::Read(buffer, count) => read_bytes(events.drop_last()) + buffer@.take(
                count as int,
            ),
            _ => read_bytes(events.drop_last()),
        }
    }
}

/// A file has been described and its bytes may follow.
pub open spec fn in_file(stage: Stage) -> bool {
    stage is Describing || stage is Opening || stage is Reading || stage is SendingChunk
}

/// A message that the bytes of a file may follow.
pub open spec fn opens_file(message: Message) -> bool {
    message is Artifact || message is Chunk
}

/// The first message names the run, and no other does; a chunk comes only
/// after the description of its file or another chunk of it; and the chunks
/// hold what was read, in order.
pub proof fn law_stream_is_in_order(
    run_id: String,
    states: Seq<State>,
    events: Seq<Event>,
    actions: Seq<Action>,
)
    requires
        is_history(run_id, states, events, actions),
    ensures
        sent(actions).len() > 0,
        sent(actions)[0] == Message::Run(run_id),
        forall|i: int| 0 < i < sent(actions).len() ==> !(#[trigger] sent(actions)[i] is Run),
        forall|i: int|
            0 < i < sent(actions).len() && #[trigger] sent(actions)[i] is Chunk ==> opens_file(
                sent(actions)[i - 1],
            ),
        in_file(states.last().stage) ==> opens_file(sent(actions).last()),
        sent_bytes(sent(actions)) == read_bytes(events),
    decreases events.len(),
{
    if events.len() == 0 {
        let shorter = actions.drop_last();
        assert(shorter =~= Seq::<Action>::empty());
        assert(sent(shorter) =~= Seq::<Message>::empty());
        assert(sent(actions) =~= seq![Message::Run(run_id)]);
        assert(sent(actions).drop_last() =~= Seq::<Message>::empty());
        assert(sent_bytes(sent(actions).drop_last()) =~= Seq::<u8>::empty());
        assert(sent(actions).last() is Run);
        assert(sent_bytes(sent(actions)) =~= read_bytes(events));
    } else {
        let n = events.len() - 1;
        let (states_before, events_before, actions_before) = (
            states.drop_last(),
            events.drop_last(),
            actions.drop_last(),
        );
        assert(events[n] == events.last());
        assert forall|i: int|
            #![trigger events_before[i]]
            0 <= i < n implies expects(states_before[i].stage, events_before[i]) && steps(
            states_before[i],
            events_before[i],
            states_before[i + 1],
            actions_before[i + 1],
        ) by {
            assert(events[i] == events_before[i]);
        }
        law_stream_is_in_order(run_id, states_before, events_before, actions_before);
        assert(states_before.last() == states[n]);
        assert(steps(states[n], events[n], states[n + 1], actions[n + 1]));
        let (before, after) = (sent(actions_before), sent(actions));
        if let Action::Send(message) = actions.last() {
            assert(after.drop_last() =~= before);
        }
        assert(sent_bytes(after) =~= read_bytes(events));
    }
}

/// Every event has its answer: a metric is sent as it was reported, a file is
/// measured at its own path and a directory is listed at its own; what is read
/// of a file is sent, and its end has the next file measured or the next
/// command awaited. Nothing more to report finishes the stream well, and a
/// failure finishes it with its message.
pub proof fn law_every_event_has_its_answer(
    run_id: String,
    states: Seq<State>,
    events: Seq<Event>,
    actions: Seq<Action>,
    n: int,
)
    requires
        is_history(run_id, states, events, actions),
        0 <= n < events.len(),
    ensures
        events[n] matches Event::Command(MetricCommand::Scalar(metric)) ==> actions[n + 1]
            == Action::Send(Message::Metric(metric)),
        events[n] matches Event::Command(MetricCommand::Artifact { path, .. }) ==> (actions[n
            + 1] matches Action::Measure(place) && place.path@ == path@ && place.listed is None),
        events[n] matches Event::Command(MetricCommand::Directory { path, .. }) ==> actions[n + 1]
            == Action::List(path),
        events[n] matches Event::Listed(found) ==> if found@.len() > 0 {
            actions[n + 1] matches Action::Measure(place) && place.path@ == found@[0].path@
                && place.listed == Some(found@[0].number)
        } else {
            actions[n + 1] is AwaitCommand
        },
        events[n] is Size ==> actions[n + 1] matches Action::Send(Message::Artifact(_)),
        events[n] is Opened ==> actions[n + 1] is Read,
        events[n] matches Event::Read(buffer, count) ==> if count > 0 {
            actions[n + 1] matches Action::Send(Message::Chunk(bytes)) && bytes@ == buffer@.take(
                count as int,
            )
        } else {
            actions[n + 1] is Measure || actions[n + 1] is AwaitCommand
        },
        events[n] is Closed ==> actions[n + 1] == Action::Finish(Ok(())),
        events[n] matches Event::Failed(error) ==> actions[n + 1] == Action::Finish(Err(error)),
        actions[n + 1] is Finish ==> n + 1 == events.len(),
        actions[n] is AwaitCommand ==> states[n].files.len() == 0,
{
    assert(expects(states[n].stage, events[n]) && steps(
        states[n],
        events[n],
        states[n + 1],
        actions[n + 1],
    ));
    if let Event::Listed(found) = events[n] {
        if let Stage::Listing { name, step, timestamp_unix_ms } = states[n].stage {
            let files = choose|files: Seq<FileReport>| #[trigger]
                are_reports(found@, name@, step, timestamp_unix_ms, files) && proceeds(
                    State { files, ..states[n] },
                    states[n + 1],
                    actions[n + 1],
                );
            if found@.len() > 0 {
                assert(is_file_report(files[0], found@[0], name@, step, timestamp_unix_ms));
            }
        }
    }
    if n + 1 < events.len() {
        assert(expects(states[n + 1].stage, events[n + 1]));
    }
    if n > 0 {
        assert(steps(states[n - 1], events[n - 1], states[n], actions[n]));
        if let Event::Listed(found) = events[n - 1] {
            if let Stage::Listing { name, step, timestamp_unix_ms } = states[n - 1].stage {
                let files = choose|files: Seq<FileReport>| #[trigger]
                    are_reports(found@, name@, step, timestamp_unix_ms, files) && proceeds(
                        State { files, ..states[n - 1] },
                        states[n],
                        actions[n],
                    );
                assert(proceeds(State { files, ..states[n - 1] }, states[n], actions[n]));
            }
        }
    }
}

/// A file is described as it was reported: with the name, the step and the time
/// of the command, the size that was measured, and the type that was given or
/// else guessed from the path; and it is opened at that path.
pub proof fn law_file_is_described_as_reported(
    run_id: String,
    states: Seq<State>,
    events: Seq<Event>,
    actions: Seq<Action>,
    n: int,
    path: String,
    name: String,
    step: u64,
    content_type: Option<String>,
    timestamp_unix_ms: i64,
)
    requires
        is_history(run_id, states, events, actions),
        0 <= n,
        n + 1 < events.len(),
        events[n] == Event::Command(
            MetricCommand::Artifact { path, name, step, content_type, timestamp_unix_ms },
        ),
    ensures
        events[n + 1] matches Event::Size(size) ==> {
            &&& actions[n + 2] matches Action::Send(Message::Artifact(artifact))
            &&& artifact.name@ == name@
            &&& artifact.step == step
            &&& artifact.timestamp_unix_ms == timestamp_unix_ms
            &&& artifact.size_bytes == size
            &&& content_type matches Some(given) ==> artifact.content_type@ == given@
            &&& content_type is None ==> artifact.content_type@ == guessed_type(path@)
            &&& n + 2 < events.len() && events[n + 2] is Sent ==> (actions[n
                + 3] matches Action::Open(place) && place.path@ == path@ && place.listed is None)
        },
{
    assert(steps(states[n], events[n], states[n + 1], actions[n + 1]));
    assert(expects(states[n + 1].stage, events[n + 1]) && steps(
        states[n + 1],
        events[n + 1],
        states[n + 2],
        actions[n + 2],
    ));
    if n + 2 < events.len() {
        assert(expects(states[n + 2].stage, events[n + 2]) && steps(
            states[n + 2],
            events[n + 2],
            states[n + 3],
            actions[n + 3],
        ));
    }
}

/// The files of a directory are taken up in the order in which they were
/// listed, each by its own path and number, under the name of the directory, a
/// slash and its name below it, with the step and the time of the command.
pub proof fn law_directory_is_sent_file_by_file(
    run_id: String,
    states: Seq<State>,
    events: Seq<Event>,
    actions: Seq<Action>,
    n: int,
    path: String,
    name: String,
    step: u64,
    timestamp_unix_ms: i64,
    found: Vec<ListedFile>,
)
    requires
        is_history(run_id, states, events, actions),
        0 <= n,
        n + 1 < events.len(),
        events[n] == Event::Command(
            MetricCommand::Directory { path, name, step, timestamp_unix_ms },
        ),
        events[n + 1] == Event::Listed(found),
        found@.len() > 0,
    ensures
        ({
            let first = states[n + 2].stage->Measuring_0;
            let files = seq![first] + states[n + 2].files;
            &&& states[n + 2].stage is Measuring
            &&& files.len() == found@.len()
            &&& forall|i: int|
                0 <= i < files.len() ==> {
                    &&& (#[trigger] files[i]).path@ == found@[i].path@
                    &&& files[i].listed == Some(found@[i].number)
                    &&& files[i].name@ == name@ + "/"@ + found@[i].relative@
                    &&& files[i].step == step
                    &&& files[i].timestamp_unix_ms == timestamp_unix_ms
                    &&& files[i].content_type is None
                }
        }),
{
    assert(steps(states[n], events[n], states[n + 1], actions[n + 1]));
    assert(expects(states[n + 1].stage, events[n + 1]) && steps(
        states[n + 1],
        events[n + 1],
        states[n + 2],
        actions[n + 2],
    ));
    let files = choose|files: Seq<FileReport>| #[trigger]
        are_reports(found@, name@, step, timestamp_unix_ms, files) && proceeds(
            State { files, ..states[n + 1] },
            states[n + 2],
            actions[n + 2],
        );
    let taken = seq![states[n + 2].stage->Measuring_0] + states[n + 2].files;
    assert(taken =~= files);
    assert forall|i: int| 0 <= i < taken.len() implies {
        &&& (#[trigger] taken[i]).path@ == found@[i].path@
        &&& taken[i].listed == Some(found@[i].number)
        &&& taken[i].name@ == name@ + "/"@ + found@[i].relative@
        &&& taken[i].step == step
        &&& taken[i].timestamp_unix_ms == timestamp_unix_ms
        &&& taken[i].content_type is None
    } by {
        assert(is_file_report(files[i], found@[i], name@, step, timestamp_unix_ms));
    }
}

/// A file that was taken up is described by its own report once its size is
/// known, and the file that is taken up next is the next one of its directory.
pub proof fn law_files_in_turn(
    run_id: String,
    states: Seq<State>,
    events: Seq<Event>,
    actions: Seq<Action>,
    n: int,
)
    requires
        is_history(run_id, states, events, actions),
        0 <= n < events.len(),
    ensures
        states[n].stage matches Stage::Measuring(report) ==> (events[n] matches Event::Size(size)
            ==> {
            &&& actions[n + 1] matches Action::Send(Message::Artifact(artifact))
            &&& artifact.name@ == report.name@
            &&& artifact.step == report.step
            &&& artifact.timestamp_unix_ms == report.timestamp_unix_ms
            &&& artifact.size_bytes == size
            &&& report.content_type is None ==> artifact.content_type@ == guessed_type(report.path@)
            &&& states[n + 1].files == states[n].files
        }),
        states[n].stage is Reading ==> (events[n] matches Event::Read(_, count) ==> (count == 0
            && states[n].files.len() > 0 ==> {
            &&& states[n + 1].stage == Stage::Measuring(states[n].files[0])
            &&& states[n + 1].files == states[n].files.skip(1)
            &&& actions[n + 1] matches Action::Measure(place)
            &&& place.path@ == states[n].files[0].path@
            &&& place.listed == states[n].files[0].listed
        })),
        in_file(states[n].stage) && !(events[n] is Failed) && !(events[n] matches Event::Read(_, 0usize))
            ==> states[n + 1].files == states[n].files,
{
    assert(expects(states[n].stage, events[n]) && steps(
        states[n],
        events[n],
        states[n + 1],
        actions[n + 1],
    ));
    if states[n].files.len() > 0 {
        assert(states[n].files.skip(1) =~= states[n].files.drop_first());
    }
}

/// While nothing of a directory is under way, nothing of it is left.
proof fn lemma_no_files_left(
    run_id: String,
    states: Seq<State>,
    events: Seq<Event>,
    actions: Seq<Action>,
    n: int,
)
    requires
        is_history(run_id, states, events, actions),
        0 <= n < states.len(),
    ensures
        states[n].stage is Sending || states[n].stage is Idle || states[n].stage is Listing
            ==> states[n].files.len() == 0,
        states[n].stage is Sending <==> (actions[n] matches Action::Send(message) && (
        message is Run || message is Metric)),
        states[n].stage is Describing <==> (actions[n] matches Action::Send(message)
            && message is Artifact),
        states[n].stage is SendingChunk <==> (actions[n] matches Action::Send(message)
            && message is Chunk),
    decreases n,
{
    if n > 0 {
        lemma_no_files_left(run_id, states, events, actions, n - 1);
        assert(expects(states[n - 1].stage, events[n - 1]) && steps(
            states[n - 1],
            events[n - 1],
            states[n],
            actions[n],
        ));
        if let Event::Listed(found) = events[n - 1] {
            if let Stage::Listing { name, step, timestamp_unix_ms } = states[n - 1].stage {
                let files = choose|files: Seq<FileReport>| #[trigger]
                    are_reports(found@, name@, step, timestamp_unix_ms, files) && proceeds(
                        State { files, ..states[n - 1] },
                        states[n],
                        actions[n],
                    );
                assert(proceeds(State { files, ..states[n - 1] }, states[n], actions[n]));
            }
        }
    }
}

/// What follows a message that was sent: behind the run or a metric the next
/// command is awaited, behind a description its file is opened where it was
/// measured, and behind a chunk the file is read on. The end of the last file
/// has the next command awaited.
pub proof fn law_what_follows_a_message(
    run_id: String,
    states: Seq<State>,
    events: Seq<Event>,
    actions: Seq<Action>,
    n: int,
)
    requires
        is_history(run_id, states, events, actions),
        0 <= n < events.len(),
    ensures
        events[n] is Sent ==> (actions[n] matches Action::Send(message) && match message {
            Message::Run(_) => actions[n + 1] is AwaitCommand,
            Message::Metric(_) => actions[n + 1] is AwaitCommand,
            Message::Artifact(_) => actions[n + 1] is Open && n > 0 && (actions[n
                - 1] matches Action::Measure(measured) ==> (actions[n + 1] matches Action::Open(
                place,
            ) && place.path@ == measured.path@ && place.listed == measured.listed)),
            Message::Chunk(_) => actions[n + 1] is Read,
        }),
        (events[n] matches Event::Read(_, count) && count == 0) && states[n].files.len() == 0
            ==> actions[n + 1] is AwaitCommand,
{
    assert(expects(states[n].stage, events[n]) && steps(
        states[n],
        events[n],
        states[n + 1],
        actions[n + 1],
    ));
    lemma_no_files_left(run_id, states, events, actions, n);
    if n > 0 {
        lemma_no_files_left(run_id, states, events, actions, n - 1);
        assert(expects(states[n - 1].stage, events[n - 1]) && steps(
            states[n - 1],
            events[n - 1],
            states[n],
            actions[n],
        ));
    }
    if n > 1 {
        assert(expects(states[n - 2].stage, events[n - 2]) && steps(
            states[n - 2],
            events[n - 2],
            states[n - 1],
            actions[n - 1],
        ));
        if let Event::Listed(found) = events[n - 2] {
            if let Stage::Listing { name, step, timestamp_unix_ms } = states[n - 2].stage {
                let files = choose|files: Seq<FileReport>| #[trigger]
                    are_reports(found@, name@, step, timestamp_unix_ms, files) && proceeds(
                        State { files, ..states[n - 2] },
                        states[n - 1],
                        actions[n - 1],
                    );
                assert(proceeds(State { files, ..states[n - 2] }, states[n - 1], actions[n - 1]));
            }
        }
    }
}

} // verus!
