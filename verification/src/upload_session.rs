//! Uploads from the training process: the daemon's side of one connection, and
//! the client's side.
//!
//! The daemon works off the jobs of a connection in order. Metrics and
//! artifacts share one stream, which is opened by the first of them and
//! finished by a flush or at the end; a flush is answered when everything
//! before it has been acknowledged.
use crate::text::concat2;
use vstd::prelude::*;
use vstd::string::*;

verus! {

/// Bytes per chunk of an uploaded file.
pub const CHUNK_SIZE: usize = 1_048_576;

/// How long finishing an upload may take, in seconds.
pub const FINISH_TIMEOUT_SECONDS: u64 = 300;

/// One job of a connection; `value` holds the bits of a 32-bit float.
pub enum Upload {
    Metric { step: u64, name: String, value: u32 },
    Artifact { step: u64, path: String, name: String, content_type: String },
    Checkpoint { step: u64, path: String },
    Flush,
}

/// What happened.
pub enum Event {
    /// The next job.
    Job(Upload),
    /// There are no more jobs.
    JobsClosed,
    /// The last action was carried out.
    Done,
    /// The last action failed, with this message.
    Failed(String),
    /// Reading jobs failed, with this message; this can come at any time.
    ReadFailed(String),
}

/// What to do next.
pub enum Action {
    /// Wait for the next job.
    NextJob,
    /// Open a metrics stream; its first message names the run.
    OpenStream,
    /// Send a scalar metric, stamped with the time.
    SendMetric { step: u64, name: String, value: u32 },
    /// Send a file as an artifact.
    SendArtifact { step: u64, path: String, name: String, content_type: String },
    /// Send a file as a checkpoint.
    SendCheckpoint { step: u64, path: String },
    /// Close the metrics stream and wait for its acknowledgement.
    FinishStream,
    /// Tell the client that everything so far is acknowledged.
    ReplyOk,
    /// Tell the client that uploading failed, if it still listens.
    ReplyError(String),
    /// The connection is over.
    Close(Result<(), String>),
}

/// What a session is waiting for.
pub enum Phase {
    /// The next job.
    Idle,
    /// The stream for this job, a metric or an artifact.
    Opening(Upload),
    /// The end of a job that leaves the stream as it is.
    Working,
    /// The end of the stream, then the answer to a flush.
    Flushing,
    /// The end of the stream, then the end of the connection.
    Ending,
    /// The last word to the client, then the end of the connection.
    Reporting(String),
    Closed,
}

/// The daemon's side of one connection.
pub struct Session {
    pub phase: Phase,
    /// A metrics stream is open.
    pub streaming: bool,
}

/// The job that is carried out when a stream is open.
pub open spec fn streamed(job: Upload) -> Action {
    match job {
        Upload::Metric { step, name, value } => Action::SendMetric { step, name, value },
        Upload::Artifact { step, path, name, content_type } => Action::SendArtifact {
            step,
            path,
            name,
            content_type,
        },
        _ => Action::NextJob,
    }
}

/// The job needs a metrics stream.
pub open spec fn needs_stream(job: Upload) -> bool {
    job is Metric || job is Artifact
}

/// An event makes sense in a session.
pub open spec fn expects(session: Session, event: Event) -> bool {
    match session.phase {
        Phase::Idle => event is Job || event is JobsClosed || event is ReadFailed,
        Phase::Closed => false,
        Phase::Reporting(_) => event is Done || event is Failed,
        _ => event is Done || event is Failed || event is ReadFailed,
    }
}

/// One step of a session.
pub open spec fn step_spec(session: Session, event: Event) -> (Session, Action) {
    match (session.phase, event) {
        (Phase::Reporting(message), _) => (
            Session { phase: Phase::Closed, ..session },
            Action::Close(Err(message)),
        ),
        (_, Event::Failed(message)) => (
            Session { phase: Phase::Reporting(message), ..session },
            Action::ReplyError(message),
        ),
        (_, Event::ReadFailed(message)) => (
            Session { phase: Phase::Reporting(message), ..session },
            Action::ReplyError(message),
        ),
        (Phase::Idle, Event::Job(job)) => match job {
            Upload::Checkpoint { step, path } => (
                Session { phase: Phase::Working, ..session },
                Action::SendCheckpoint { step, path },
            ),
            Upload::Flush => if session.streaming {
                (Session { phase: Phase::Flushing, streaming: false }, Action::FinishStream)
            } else {
                (Session { phase: Phase::Working, ..session }, Action::ReplyOk)
            },
            _ => if session.streaming {
                (Session { phase: Phase::Working, ..session }, streamed(job))
            } else {
                (Session { phase: Phase::Opening(job), ..session }, Action::OpenStream)
            },
        },
        (Phase::Idle, _) => if session.streaming {
            (Session { phase: Phase::Ending, streaming: false }, Action::FinishStream)
        } else {
            (Session { phase: Phase::Closed, ..session }, Action::Close(Ok(())))
        },
        (Phase::Opening(job), _) => (
            Session { phase: Phase::Working, streaming: true },
            streamed(job),
        ),
        (Phase::Flushing, _) => (Session { phase: Phase::Working, ..session }, Action::ReplyOk),
        (Phase::Ending, _) => (
            Session { phase: Phase::Closed, ..session },
            Action::Close(Ok(())),
        ),
        _ => (Session { phase: Phase::Idle, ..session }, Action::NextJob),
    }
}

/// A stream is opened only for a job that needs one and only where none is
/// open; a session that flushes or ends has none.
pub open spec fn session_wf(session: Session) -> bool {
    match session.phase {
        Phase::Opening(job) => needs_stream(job) && !session.streaming,
        Phase::Flushing => !session.streaming,
        Phase::Ending => !session.streaming,
        _ => true,
    }
}

impl Session {
    /// A fresh connection.
    pub fn new() -> (session: Session)
        ensures
            session == (Session { phase: Phase::Idle, streaming: false }),
            session_wf(session),
    {
        Session { phase: Phase::Idle, streaming: false }
    }

    /// One step: takes what happened and says what to do next.
    pub fn step(&mut self, event: Event) -> (action: Action)
        requires
            session_wf(*old(self)),
            expects(*old(self), event),
        ensures
            session_wf(*final(self)),
            (*final(self), action) == step_spec(*old(self), event),
    {
        let mut phase = Phase::Closed;
        std::mem::swap(&mut phase, &mut self.phase);
        match (phase, event) {
            (Phase::Reporting(message), _) => Action::Close(Err(message)),
            (_, Event::Failed(message)) => self.report(message),
            (_, Event::ReadFailed(message)) => self.report(message),
            (Phase::Idle, Event::Job(job)) => self.take(job),
            (Phase::Idle, _) => {
                if self.streaming {
                    self.streaming = false;
                    self.phase = Phase::Ending;
                    Action::FinishStream
                } else {
                    Action::Close(Ok(()))
                }
            },
            (Phase::Opening(job), _) => {
                self.streaming = true;
                self.phase = Phase::Working;
                Self::over_stream(job)
            },
            (Phase::Flushing, _) => {
                self.phase = Phase::Working;
                Action::ReplyOk
            },
            (Phase::Ending, _) => Action::Close(Ok(())),
            _ => {
                self.phase = Phase::Idle;
                Action::NextJob
            },
        }
    }

    fn report(&mut self, message: String) -> (action: Action)
        ensures
            *final(self) == (Session { phase: Phase::Reporting(message), ..*old(self) }),
            action == Action::ReplyError(message),
    {
        let copy = message.clone();
        self.phase = Phase::Reporting(message);
        Action::ReplyError(copy)
    }

    fn over_stream(job: Upload) -> (action: Action)
        ensures
            action == streamed(job),
    {
        match job {
            Upload::Metric { step, name, value } => Action::SendMetric { step, name, value },
            Upload::Artifact { step, path, name, content_type } => Action::SendArtifact {
                step,
                path,
                name,
                content_type,
            },
            _ => Action::NextJob,
        }
    }

    fn take(&mut self, job: Upload) -> (action: Action)
        ensures
            (*final(self), action) == step_spec(
                Session { phase: Phase::Idle, ..*old(self) },
                Event::Job(job),
            ),
            session_wf(*final(self)),
    {
        match job {
            Upload::Checkpoint { step, path } => {
                self.phase = Phase::Working;
                Action::SendCheckpoint { step, path }
            },
            Upload::Flush => {
                if self.streaming {
                    self.streaming = false;
                    self.phase = Phase::Flushing;
                    Action::FinishStream
                } else {
                    self.phase = Phase::Working;
                    Action::ReplyOk
                }
            },
            _ => {
                if self.streaming {
                    self.phase = Phase::Working;
                    Self::over_stream(job)
                } else {
                    self.phase = Phase::Opening(job);
                    Action::OpenStream
                }
            },
        }
    }
}

/// A connection's history.
pub open spec fn is_history(
    sessions: Seq<Session>,
    events: Seq<Event>,
    actions: Seq<Action>,
) -> bool {
    &&& sessions.len() == events.len() + 1
    &&& actions.len() == events.len()
    &&& sessions[0] == Session { phase: Phase::Idle, streaming: false }
    &&& forall|i: int|
        #![trigger events[i]]
        0 <= i < events.len() ==> expects(sessions[i], events[i]) && step_spec(
            sessions[i],
            events[i],
        ) == (sessions[i + 1], actions[i])
}

/// The jobs that came, in order.
pub open spec fn jobs(events: Seq<Event>) -> Seq<Upload>
    decreases events.len(),
{
    if events.len() == 0 {
        Seq::empty()
    } else {
        match events.last() {
            Event::Job(job) => jobs(events.drop_last()).push(job),
            _ => jobs(events.drop_last()),
        }
    }
}

/// The job that an action carries out; the answer to a flush carries out the
/// flush.
pub open spec fn carried_out(action: Action) -> Option<Upload> {
    match action {
        Action::SendMetric { step, name, value } => Some(Upload::Metric { step, name, value }),
        Action::SendArtifact { step, path, name, content_type } => Some(
            Upload::Artifact { step, path, name, content_type },
        ),
        Action::SendCheckpoint { step, path } => Some(Upload::Checkpoint { step, path }),
        Action::ReplyOk => Some(Upload::Flush),
        _ => None,
    }
}

/// The jobs that were carried out, in order.
pub open spec fn jobs_done(actions: Seq<Action>) -> Seq<Upload>
    decreases actions.len(),
{
    if actions.len() == 0 {
        Seq::empty()
    } else {
        match carried_out(actions.last()) {
            Some(job) => jobs_done(actions.drop_last()).push(job),
            None => jobs_done(actions.drop_last()),
        }
    }
}

/// The job that has come and waits for the stream to open or to end.
pub open spec fn waiting(session: Session) -> Seq<Upload> {
    match session.phase {
        Phase::Opening(job) => seq![job],
        Phase::Flushing => seq![Upload::Flush],
        _ => Seq::empty(),
    }
}

/// How many metrics streams are open: one for each opening that no finishing
/// has followed.
pub open spec fn streams_open(actions: Seq<Action>) -> int
    decreases actions.len(),
{
    if actions.len() == 0 {
        0
    } else {
        streams_open(actions.drop_last()) + match actions.last() {
            Action::OpenStream => 1int,
            Action::FinishStream => -1int,
            _ => 0int,
        }
    }
}

proof fn lemma_prefix(sessions: Seq<Session>, events: Seq<Event>, actions: Seq<Action>)
    requires
        is_history(sessions, events, actions),
        events.len() > 0,
    ensures
        is_history(sessions.drop_last(), events.drop_last(), actions.drop_last()),
        sessions.drop_last().last() == sessions[events.len() - 1],
        expects(sessions[events.len() - 1], events.last()),
        step_spec(sessions[events.len() - 1], events.last()) == (sessions.last(), actions.last()),
{
    assert(events[events.len() - 1] == events.last());
    assert forall|i: int|
        #![trigger events.drop_last()[i]]
        0 <= i < events.drop_last().len() implies expects(
        sessions.drop_last()[i],
        events.drop_last()[i],
    ) && step_spec(sessions.drop_last()[i], events.drop_last()[i]) == (
        sessions.drop_last()[i + 1],
        actions.drop_last()[i],
    ) by {
        assert(events[i] == events.drop_last()[i]);
    }
}

/// Jobs are carried out in the order they came, none twice and none left out,
/// as long as nothing fails.
pub proof fn law_jobs_in_order(sessions: Seq<Session>, events: Seq<Event>, actions: Seq<Action>)
    requires
        is_history(sessions, events, actions),
    ensures
        session_wf(sessions.last()),
        !(sessions.last().phase is Reporting) && !(sessions.last().phase is Closed)
            ==> jobs_done(actions) + waiting(sessions.last()) == jobs(events),
        events.len() > 0 && actions.last() == Action::Close(Ok(())) ==> jobs_done(actions) == jobs(
            events,
        ),
    decreases events.len(),
{
    if events.len() == 0 {
        assert(jobs_done(actions) + waiting(sessions.last()) =~= jobs(events));
    } else {
        let before = sessions[events.len() - 1];
        let after = sessions.last();
        lemma_prefix(sessions, events, actions);
        law_jobs_in_order(sessions.drop_last(), events.drop_last(), actions.drop_last());
        let done = jobs_done(actions.drop_last());
        if !(before.phase is Reporting) {
            assert(done + waiting(before) == jobs(events.drop_last()));
            assert(done + Seq::<Upload>::empty() =~= done);
            if !(after.phase is Reporting) {
                assert(jobs_done(actions) + waiting(after) =~= jobs(events));
            }
        }
    }
}

/// At most one metrics stream is open at any time, and the session knows
/// whether it is.
pub proof fn law_one_stream_at_a_time(
    sessions: Seq<Session>,
    events: Seq<Event>,
    actions: Seq<Action>,
)
    requires
        is_history(sessions, events, actions),
    ensures
        session_wf(sessions.last()),
        0 <= streams_open(actions) <= 1,
        !(sessions.last().phase is Reporting) && !(sessions.last().phase is Closed) ==> (
        streams_open(actions) == 1 <==> sessions.last().streaming || sessions.last().phase is Opening),
        sessions.last().phase is Closed && actions.last() == Action::Close(Ok(()))
            ==> streams_open(actions) == 0,
    decreases events.len(),
{
    if events.len() > 0 {
        lemma_prefix(sessions, events, actions);
        law_one_stream_at_a_time(sessions.drop_last(), events.drop_last(), actions.drop_last());
        assert(sessions.drop_last().last() == sessions[events.len() - 1]);
    }
}

/// A flush is answered well only when no metrics stream is open: everything
/// sent before it has been acknowledged.
pub proof fn law_flush_answers_after_acknowledgement(
    sessions: Seq<Session>,
    events: Seq<Event>,
    actions: Seq<Action>,
)
    requires
        is_history(sessions, events, actions),
        events.len() > 0,
        actions.last() is ReplyOk,
    ensures
        streams_open(actions) == 0,
        !sessions.last().streaming,
{
    lemma_prefix(sessions, events, actions);
    law_one_stream_at_a_time(sessions, events, actions);
    law_one_stream_at_a_time(sessions.drop_last(), events.drop_last(), actions.drop_last());
}

/// What the reading side of a connection does with what it got.
#[derive(Clone, Copy, Debug, PartialEq, Eq, Structural)]
pub enum Reading {
    Queue,
    Stop,
}

/// A message is queued; the end of the connection and a request to stop end
/// the reading, and a message that is there comes before the request.
pub fn reading(message_ready: bool, ended: bool, stopping: bool) -> (next: Option<Reading>)
    ensures
        next == if ended {
            Some(Reading::Stop)
        } else if message_ready {
            Some(Reading::Queue)
        } else if stopping {
            Some(Reading::Stop)
        } else {
            None
        },
{
    if ended {
        Some(Reading::Stop)
    } else if message_ready {
        Some(Reading::Queue)
    } else if stopping {
        Some(Reading::Stop)
    } else {
        None
    }
}

/// The milliseconds since the epoch as a timestamp.
pub fn timestamp(elapsed_millis: u128) -> (millis: Result<i64, String>)
    ensures
        match millis {
            Ok(millis) => millis == elapsed_millis,
            Err(message) => elapsed_millis > i64::MAX && message@
                == "out of range integral type conversion attempted"@,
        },
{
    if elapsed_millis > i64::MAX as u128 {
        Err("out of range integral type conversion attempted".to_owned())
    } else {
        Ok(elapsed_millis as i64)
    }
}

/// What one read of a file gives to send: nothing at its end.
pub fn chunk_of(buffer: Vec<u8>, count: usize) -> (chunk: Option<Vec<u8>>)
    requires
        count <= buffer@.len(),
    ensures
        match chunk {
            Some(bytes) => count > 0 && bytes@ == buffer@.take(count as int),
            None => count == 0,
        },
{
    if count == 0 {
        return None;
    }
    let mut bytes = buffer;
    bytes.truncate(count);
    assert(bytes@ =~= buffer@.take(count as int));
    Some(bytes)
}

/// How much of an artifact of known size has been read.
pub struct ArtifactProgress {
    pub size_bytes: u64,
    pub total: u64,
}

impl ArtifactProgress {
    pub open spec fn wf(self) -> bool {
        self.total <= self.size_bytes
    }

    /// An artifact begins; only files can be sent.
    pub fn begin(is_file: bool, size_bytes: u64) -> (progress: Result<ArtifactProgress, String>)
        ensures
            match progress {
                Ok(progress) => is_file && progress == (ArtifactProgress { size_bytes, total: 0 }),
                Err(message) => !is_file && message@ == "artifact path must be a file"@,
            },
    {
        if is_file {
            Ok(ArtifactProgress { size_bytes, total: 0 })
        } else {
            Err("artifact path must be a file".to_owned())
        }
    }

    /// More bytes were read; there must not be more than announced.
    pub fn read(&mut self, count: usize) -> (result: Result<(), String>)
        requires
            old(self).wf(),
        ensures
            final(self).wf(),
            match result {
                Ok(()) => old(self).total + count <= old(self).size_bytes && *final(self) == (
                ArtifactProgress {
                    total: (old(self).total + count) as u64,
                    ..*old(self)
                }),
                Err(message) => old(self).total + count > old(self).size_bytes && *final(self)
                    == *old(self) && message@ == "artifact grew while uploading"@,
            },
    {
        if count as u64 > self.size_bytes - self.total {
            return Err("artifact grew while uploading".to_owned());
        }
        self.total = self.total + count as u64;
        Ok(())
    }

    /// The file ended; all that was announced must have been read.
    pub fn end(&self) -> (result: Result<(), String>)
        requires
            self.wf(),
        ensures
            match result {
                Ok(()) => self.total == self.size_bytes,
                Err(message) => self.total < self.size_bytes && message@
                    == "artifact shrank while uploading"@,
            },
    {
        if self.total == self.size_bytes {
            Ok(())
        } else {
            Err("artifact shrank while uploading".to_owned())
        }
    }
}

/// The message for an artifact that cannot be opened.
pub fn artifact_open_failure(path: &str) -> (message: String)
    ensures
        message@ == "opening artifact "@ + path@,
{
    concat2("opening artifact ", path)
}

/// The message for a checkpoint that cannot be opened.
pub fn checkpoint_open_failure(path: &str) -> (message: String)
    ensures
        message@ == "opening checkpoint "@ + path@,
{
    concat2("opening checkpoint ", path)
}

/// A message of a checkpoint upload.
pub enum CheckpointMessage {
    Metadata { run_id: String, step: u64 },
    Chunk(Vec<u8>),
}

/// The first message of a checkpoint; only files can be sent.
pub fn checkpoint_begin(run_id: String, step: u64, is_file: bool) -> (first: Result<
    CheckpointMessage,
    String,
>)
    ensures
        match first {
            Ok(message) => is_file && message == (CheckpointMessage::Metadata { run_id, step }),
            Err(message) => !is_file && message@ == "checkpoint path must be a file"@,
        },
{
    if is_file {
        Ok(CheckpointMessage::Metadata { run_id, step })
    } else {
        Err("checkpoint path must be a file".to_owned())
    }
}

/// What one read of a checkpoint file gives to send: nothing at its end.
pub fn checkpoint_chunk(buffer: Vec<u8>, count: usize) -> (message: Option<CheckpointMessage>)
    requires
        count <= buffer@.len(),
    ensures
        match message {
            Some(message) => count > 0 && (message matches CheckpointMessage::Chunk(bytes)
                && bytes@ == buffer@.take(count as int)),
            None => count == 0,
        },
{
    match chunk_of(buffer, count) {
        Some(bytes) => Some(CheckpointMessage::Chunk(bytes)),
        None => None,
    }
}

/// What a metrics stream that is being sent to reports.
pub enum SendOutcome {
    /// The message is on its way.
    Sent,
    /// The call was answered well, though the stream was not finished.
    EndedEarly,
    /// The message was not taken, and the call was answered well.
    NotTaken,
    /// The call failed, with this message.
    CallFailed(String),
}

/// Sending succeeds only if the message is on its way and the call goes on.
pub fn stream_send(outcome: SendOutcome) -> (result: Result<(), String>)
    ensures
        match outcome {
            SendOutcome::Sent => result is Ok,
            SendOutcome::EndedEarly => result matches Err(message) && message@
                == "metrics RPC ended before the stream finished"@,
            SendOutcome::NotTaken => result matches Err(message) && message@
                == "metrics RPC stopped receiving"@,
            SendOutcome::CallFailed(error) => result == Err::<(), String>(error),
        },
{
    match outcome {
        SendOutcome::Sent => Ok(()),
        SendOutcome::EndedEarly => Err("metrics RPC ended before the stream finished".to_owned()),
        SendOutcome::NotTaken => Err("metrics RPC stopped receiving".to_owned()),
        SendOutcome::CallFailed(error) => Err(error),
    }
}

/// The client's side of a connection.
pub struct Connection {
    /// The connection is there.
    pub open: bool,
    /// Something was sent that no flush has confirmed.
    pub dirty: bool,
}

/// What flushing takes.
#[derive(Clone, Copy, Debug, PartialEq, Eq, Structural)]
pub enum Flush {
    /// There is no connection.
    Closed,
    /// There is nothing to confirm.
    Nothing,
    /// The daemon is to be asked.
    Ask,
}

/// The answer to a flush, as it was read.
pub enum FlushReply {
    /// The daemon answered.
    Reply(Result<(), String>),
    /// The daemon closed the connection.
    Ended,
    /// Reading failed.
    ReadFailed(String),
    /// No answer came in time.
    TimedOut,
}

impl Connection {
    /// A fresh connection.
    pub fn new() -> (connection: Connection)
        ensures
            connection == (Connection { open: true, dirty: false }),
    {
        Connection { open: true, dirty: false }
    }

    /// Sending needs a connection.
    pub fn may_send(&self) -> (result: Result<(), String>)
        ensures
            match result {
                Ok(()) => self.open,
                Err(message) => !self.open && message@ == "upload client is closed"@,
            },
    {
        if self.open {
            Ok(())
        } else {
            Err("upload client is closed".to_owned())
        }
    }

    /// A message was sent, or not.
    pub fn sent(&mut self, succeeded: bool)
        ensures
            *final(self) == (Connection { dirty: old(self).dirty || succeeded, ..*old(self) }),
    {
        if succeeded {
            self.dirty = true;
        }
    }

    /// What flushing takes now.
    pub fn flush(&self) -> (flush: Flush)
        ensures
            flush == if !self.open {
                Flush::Closed
            } else if self.dirty {
                Flush::Ask
            } else {
                Flush::Nothing
            },
    {
        if !self.open {
            Flush::Closed
        } else if self.dirty {
            Flush::Ask
        } else {
            Flush::Nothing
        }
    }

    /// The daemon was asked: a good answer leaves nothing to confirm, anything
    /// else closes the connection. Where the daemon is gone, a failed send is
    /// what is reported.
    pub fn flushed(&mut self, sent: Result<(), String>, reply: FlushReply) -> (result: Result<
        (),
        String,
    >)
        ensures
            match reply {
                FlushReply::Reply(Ok(())) => result is Ok && *final(self) == (Connection {
                    dirty: false,
                    ..*old(self)
                }),
                _ => *final(self) == (Connection { open: false, ..*old(self) }) && match (
                    reply,
                    sent,
                ) {
                    (FlushReply::Reply(Err(error)), _) => result == Err::<(), String>(error),
                    (FlushReply::ReadFailed(error), _) => result == Err::<(), String>(error),
                    (FlushReply::TimedOut, _) => result matches Err(message) && message@
                        == "upload flush timed out"@,
                    (FlushReply::Ended, Err(error)) => result == Err::<(), String>(error),
                    _ => result matches Err(message) && message@ == "upload connection closed"@,
                },
            },
    {
        match reply {
            FlushReply::Reply(Ok(())) => {
                self.dirty = false;
                Ok(())
            },
            FlushReply::Reply(Err(error)) => {
                self.open = false;
                Err(error)
            },
            FlushReply::ReadFailed(error) => {
                self.open = false;
                Err(error)
            },
            FlushReply::TimedOut => {
                self.open = false;
                Err("upload flush timed out".to_owned())
            },
            FlushReply::Ended => {
                self.open = false;
                match sent {
                    Err(error) => Err(error),
                    Ok(()) => Err("upload connection closed".to_owned()),
                }
            },
        }
    }

    /// Closing gives the connection up; it is flushed first where something
    /// is to be confirmed, and closing again does nothing.
    pub fn close(&mut self) -> (flush_first: bool)
        ensures
            flush_first == (old(self).open && old(self).dirty),
            *final(self) == (Connection { open: false, ..*old(self) }),
    {
        let flush_first = self.open && self.dirty;
        self.open = false;
        flush_first
    }
}

/// What fails is told and ends the connection: the client is sent exactly that
/// message, and the connection is closed with it. A connection ends well only
/// when there are no more jobs.
pub proof fn law_failure_is_told_and_closes(
    sessions: Seq<Session>,
    events: Seq<Event>,
    actions: Seq<Action>,
    n: int,
)
    requires
        is_history(sessions, events, actions),
        0 <= n < events.len(),
    ensures
        events[n] matches Event::ReadFailed(message) ==> actions[n] == Action::ReplyError(message),
        events[n] matches Event::Failed(message) ==> actions[n] == Action::ReplyError(message)
            || actions[n] is Close,
        actions[n] matches Action::ReplyError(message) ==> (events[n] == Event::Failed(message)
            || events[n] == Event::ReadFailed(message)) && (n + 1 < events.len() ==> actions[n + 1]
            == Action::Close(Err(message))),
        actions[n] matches Action::Close(Err(message)) ==> n > 0 && actions[n - 1]
            == Action::ReplyError(message),
        actions[n] matches Action::Close(Ok(_)) ==> events[n] is JobsClosed || (n > 0 && events[n
            - 1] is JobsClosed && actions[n - 1] is FinishStream),
        actions[n] is Close ==> n + 1 == events.len(),
{
    assert(expects(sessions[n], events[n]) && step_spec(sessions[n], events[n]) == (
        sessions[n + 1],
        actions[n],
    ));
    if n > 0 {
        assert(expects(sessions[n - 1], events[n - 1]) && step_spec(
            sessions[n - 1],
            events[n - 1],
        ) == (sessions[n], actions[n - 1]));
    }
    if n + 1 < events.len() {
        assert(expects(sessions[n + 1], events[n + 1]) && step_spec(
            sessions[n + 1],
            events[n + 1],
        ) == (sessions[n + 2], actions[n + 1]));
    }
}

/// Every job is taken up at once: a checkpoint is sent, a metric and an
/// artifact are sent over the open stream or have one opened first, and a flush
/// finishes the open stream or is answered.
pub proof fn law_jobs_are_taken_up(
    sessions: Seq<Session>,
    events: Seq<Event>,
    actions: Seq<Action>,
    n: int,
)
    requires
        is_history(sessions, events, actions),
        0 <= n < events.len(),
    ensures
        events[n] matches Event::Job(Upload::Checkpoint { step, path }) ==> actions[n] == (
        Action::SendCheckpoint { step, path }),
        events[n] matches Event::Job(Upload::Metric { step, name, value }) ==> actions[n] == (
        Action::SendMetric { step, name, value }) || (actions[n] is OpenStream && (n + 1
            < events.len() && events[n + 1] is Done ==> actions[n + 1] == (Action::SendMetric {
            step,
            name,
            value,
        }))),
        events[n] matches Event::Job(Upload::Artifact { step, path, name, content_type })
            ==> actions[n] == (Action::SendArtifact { step, path, name, content_type }) || (
        actions[n] is OpenStream && (n + 1 < events.len() && events[n + 1] is Done ==> actions[n
            + 1] == (Action::SendArtifact { step, path, name, content_type }))),
        events[n] matches Event::Job(Upload::Flush) ==> actions[n] is ReplyOk || (
        actions[n] is FinishStream && (n + 1 < events.len() && events[n + 1] is Done ==> actions[n
            + 1] is ReplyOk)),
        events[n] is JobsClosed ==> actions[n] == Action::Close(Ok(())) || (
        actions[n] is FinishStream && (n + 1 < events.len() && events[n + 1] is Done ==> actions[n
            + 1] == Action::Close(Ok(())))),
        events[n] is Done ==> (n > 0 && (carried_out(actions[n - 1]) is Some) ==> actions[n]
            is NextJob),
{
    assert(expects(sessions[n], events[n]) && step_spec(sessions[n], events[n]) == (
        sessions[n + 1],
        actions[n],
    ));
    if n > 0 {
        lemma_wf_at(sessions, events, actions, n - 1);
        assert(expects(sessions[n - 1], events[n - 1]) && step_spec(
            sessions[n - 1],
            events[n - 1],
        ) == (sessions[n], actions[n - 1]));
    }
    if n + 1 < events.len() {
        assert(expects(sessions[n + 1], events[n + 1]) && step_spec(
            sessions[n + 1],
            events[n + 1],
        ) == (sessions[n + 2], actions[n + 1]));
    }
}

proof fn lemma_wf_at(sessions: Seq<Session>, events: Seq<Event>, actions: Seq<Action>, n: int)
    requires
        is_history(sessions, events, actions),
        0 <= n < sessions.len(),
    ensures
        session_wf(sessions[n]),
    decreases n,
{
    if n > 0 {
        lemma_wf_at(sessions, events, actions, n - 1);
        assert(expects(sessions[n - 1], events[n - 1]) && step_spec(
            sessions[n - 1],
            events[n - 1],
        ) == (sessions[n], actions[n - 1]));
    }
}

} // verus!
