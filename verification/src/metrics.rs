//! The receiving end of a metrics stream.
//!
//! Scalar and array metrics are buffered apart and inserted a thousand rows at
//! a time; what is left goes in when the stream closes. An artifact arrives as
//! its description followed by its bytes in chunks; it is published when the
//! last declared byte is there, and given up when another artifact begins or
//! the stream fails. `MetricsReceiver::step` takes what happened and says what
//! to do next.
use crate::status::{Code, Status};
use vstd::prelude::*;
use vstd::string::*;

verus! {

/// Rows per insert while a stream is open.
pub const ROWS_PER_INSERT: usize = 1000;

/// The earliest instant a timestamp can name, in seconds: the year -9999.
pub const MIN_UNIX_SECONDS: i128 = -377_705_116_800;

/// The latest instant a timestamp can name, in seconds: the year 9999.
pub const MAX_UNIX_SECONDS: i128 = 253_402_300_799;

/// A scalar metric as it arrives; `value` holds the bits of a 32-bit float.
pub struct ScalarMetric {
    pub step: u64,
    pub timestamp_unix_ms: i64,
    pub name: String,
    pub value: u32,
}

/// An array metric as it arrives; `value` holds the bits of 32-bit floats.
pub struct ArrayMetric {
    pub step: u64,
    pub timestamp_unix_ms: i64,
    pub name: String,
    pub value: Vec<u32>,
}

/// The description of an artifact.
pub struct ArtifactMetric {
    pub step: u64,
    pub timestamp_unix_ms: i64,
    pub name: String,
    pub content_type: String,
    pub size_bytes: u64,
}

/// One message of a metrics stream.
pub enum Payload {
    Metadata,
    Metric(ScalarMetric),
    ArrayMetric(ArrayMetric),
    Artifact(ArtifactMetric),
    ArtifactChunk(Vec<u8>),
}

/// A row of the scalar metrics table.
pub struct ScalarRecord {
    pub timestamp_nanos: i128,
    pub run_id: u128,
    pub step: u64,
    pub name: String,
    pub value: u32,
}

/// A row of the array metrics table.
pub struct ArrayRecord {
    pub timestamp_nanos: i128,
    pub run_id: u128,
    pub step: u64,
    pub name: String,
    pub value: Vec<u32>,
}

/// An artifact that is complete and staged.
pub struct StagedArtifact {
    pub id: u128,
    pub run_id: u128,
    pub step: u64,
    pub timestamp_nanos: i128,
    pub name: String,
    pub content_type: String,
    pub size_bytes: u64,
}

/// What a stream was acknowledged with.
#[derive(Clone, Copy, Debug, PartialEq, Eq, Structural)]
pub struct MetricsResponse {
    pub metrics_received: u64,
    pub array_metrics_received: u64,
    pub artifacts_received: u64,
    pub artifact_bytes_received: u64,
}

/// An artifact of which bytes are missing.
pub struct PendingArtifact {
    pub id: u128,
    pub metadata: ArtifactMetric,
    pub received: u64,
}

/// What happened.
pub enum Event {
    /// A message came; `None` where it held no payload.
    Message(Option<Payload>),
    /// The stream closed.
    End,
    /// The stream failed.
    StreamFailed(Status),
    /// The last action was carried out.
    Done,
    /// The part file was created, for an artifact with this identifier.
    Created(u128),
    /// The last action failed, with this message.
    Failed(String),
}

/// What to do next.
pub enum Action {
    /// Wait for the next message.
    Receive,
    /// Insert rows of scalar metrics.
    InsertScalars(Vec<ScalarRecord>),
    /// Insert rows of array metrics.
    InsertArrays(Vec<ArrayRecord>),
    /// Draw an identifier and create its part file.
    CreatePart,
    /// Remove the part file of this artifact.
    RemovePart(u128),
    /// Append bytes to the part file of this artifact.
    WriteChunk(u128, Vec<u8>),
    /// Sync the part file of this artifact and give it its final name.
    PublishPart(u128),
    /// Hand the artifact over for upload.
    Enqueue(StagedArtifact),
    /// Answer the caller.
    Finish(Result<MetricsResponse, Status>),
}

/// What the receiver is waiting for.
pub enum Phase {
    Receiving,
    StoringScalars,
    StoringArrays,
    Discarding(ArtifactMetric),
    Creating(ArtifactMetric),
    Writing(u64),
    Publishing(PendingArtifact),
    Enqueuing,
    /// Storing the rest of the rows, then answering with this error or success.
    Closing(Option<Status>),
    /// Removing the part file, then answering with this error.
    CleaningUp(Status),
    Finished,
}

/// The state of a receiver.
pub struct State {
    pub run_id: u128,
    pub phase: Phase,
    pub pending: Option<PendingArtifact>,
    pub scalars: Seq<ScalarRecord>,
    pub arrays: Seq<ArrayRecord>,
    pub response: MetricsResponse,
}

/// A millisecond timestamp in nanoseconds, where it names an instant.
pub open spec fn timestamp_spec(timestamp_unix_ms: i64) -> Option<i128> {
    let nanos = timestamp_unix_ms * 1_000_000;
    let seconds = nanos / 1_000_000_000;
    if MIN_UNIX_SECONDS <= seconds <= MAX_UNIX_SECONDS {
        Some(nanos as i128)
    } else {
        None
    }
}

pub open spec fn scalar_record(run_id: u128, metric: ScalarMetric) -> ScalarRecord {
    ScalarRecord {
        timestamp_nanos: timestamp_spec(metric.timestamp_unix_ms)->0,
        run_id,
        step: metric.step,
        name: metric.name,
        value: metric.value,
    }
}

pub open spec fn array_record(run_id: u128, metric: ArrayMetric) -> ArrayRecord {
    ArrayRecord {
        timestamp_nanos: timestamp_spec(metric.timestamp_unix_ms)->0,
        run_id,
        step: metric.step,
        name: metric.name,
        value: metric.value,
    }
}

/// A metric is stored if it has a name and its timestamp names an instant.
pub open spec fn acceptable(name: Seq<char>, timestamp_unix_ms: i64) -> bool {
    name.len() > 0 && timestamp_spec(timestamp_unix_ms) is Some
}

/// The status for a metric that is not stored.
pub open spec fn is_refusal(status: Status, name: Seq<char>, timestamp_unix_ms: i64) -> bool {
    if name.len() == 0 {
        status.says(Code::InvalidArgument, "metric name cannot be empty"@)
    } else {
        timestamp_spec(timestamp_unix_ms) is None && status.says(
            Code::Internal,
            "timestamp was not in range"@,
        )
    }
}

/// `old` with one more, counted modulo the width of the counter.
pub open spec fn counted(old: u64, more: int) -> u64 {
    ((old + more) % 0x1_0000_0000_0000_0000) as u64
}

/// A closing stream: rows first, then the part file of an artifact that will
/// not be completed, then the answer.
pub open spec fn closes_to(state: State, error: Option<Status>, next: State, action: Action) -> bool {
    if state.scalars.len() > 0 {
        &&& next == State {
            phase: Phase::Closing(error),
            scalars: Seq::empty(),
            ..state
        }
        &&& action matches Action::InsertScalars(rows)
        &&& rows@ == state.scalars
    } else if state.arrays.len() > 0 {
        &&& next == State {
            phase: Phase::Closing(error),
            arrays: Seq::empty(),
            ..state
        }
        &&& action matches Action::InsertArrays(rows)
        &&& rows@ == state.arrays
    } else {
        match (error, state.pending) {
            (Some(status), Some(artifact)) => {
                &&& next == State {
                    phase: Phase::CleaningUp(status),
                    pending: None,
                    ..state
                }
                &&& action == Action::RemovePart(artifact.id)
            },
            (Some(status), None) => {
                &&& next == State { phase: Phase::Finished, ..state }
                &&& action == Action::Finish(Err(status))
            },
            (None, _) => {
                &&& next == State { phase: Phase::Finished, ..state }
                &&& action == Action::Finish(Ok(state.response))
            },
        }
    }
}

/// The stream is refused with this code and message.
pub open spec fn refuses(
    state: State,
    code: Code,
    message: Seq<char>,
    next: State,
    action: Action,
) -> bool {
    exists|status: Status| #[trigger]
        status.says(code, message) && closes_to(state, Some(status), next, action)
}

/// The last action failed with `message`.
pub open spec fn fails(state: State, message: String, next: State, action: Action) -> bool {
    closes_to(state, Some(Status { code: Code::Internal, message }), next, action)
}

/// An artifact begins: it needs a name.
pub open spec fn begins(state: State, artifact: ArtifactMetric, next: State, action: Action) -> bool {
    if artifact.name@.len() == 0 {
        refuses(
            state,
            Code::InvalidArgument,
            "artifact name cannot be empty"@,
            next,
            action,
        )
    } else {
        &&& next == State { phase: Phase::Creating(artifact), ..state }
        &&& action == Action::CreatePart
    }
}

/// The receiver waits for the next message.
pub open spec fn receives(state: State, next: State, action: Action) -> bool {
    &&& next == State { phase: Phase::Receiving, ..state }
    &&& action == Action::Receive
}

/// All bytes of an artifact are there.
pub open spec fn publishes(
    state: State,
    artifact: PendingArtifact,
    next: State,
    action: Action,
) -> bool {
    &&& next == State { phase: Phase::Publishing(artifact), pending: None, ..state }
    &&& action == Action::PublishPart(artifact.id)
}

/// What a message leads to.
pub open spec fn takes(state: State, request: Option<Payload>, next: State, action: Action) -> bool {
    match request {
        None => refuses(
            state,
            Code::InvalidArgument,
            "metrics message has no payload"@,
            next,
            action,
        ),
        Some(Payload::Metadata) => refuses(
            state,
            Code::InvalidArgument,
            "metrics stream metadata may only appear first"@,
            next,
            action,
        ),
        Some(Payload::Metric(metric)) => {
            if !acceptable(metric.name@, metric.timestamp_unix_ms) {
                exists|status: Status| #[trigger]
                    is_refusal(status, metric.name@, metric.timestamp_unix_ms) && closes_to(
                        state,
                        Some(status),
                        next,
                        action,
                    )
            } else {
                let rows = state.scalars.push(scalar_record(state.run_id, metric));
                let response = MetricsResponse {
                    metrics_received: counted(state.response.metrics_received, 1),
                    ..state.response
                };
                if rows.len() >= ROWS_PER_INSERT {
                    &&& next == State {
                        phase: Phase::StoringScalars,
                        scalars: Seq::empty(),
                        response,
                        ..state
                    }
                    &&& action matches Action::InsertScalars(batch)
                    &&& batch@ == rows
                } else {
                    &&& next == State { phase: Phase::Receiving, scalars: rows, response, ..state }
                    &&& action == Action::Receive
                }
            }
        },
        Some(Payload::ArrayMetric(metric)) => {
            if !acceptable(metric.name@, metric.timestamp_unix_ms) {
                exists|status: Status| #[trigger]
                    is_refusal(status, metric.name@, metric.timestamp_unix_ms) && closes_to(
                        state,
                        Some(status),
                        next,
                        action,
                    )
            } else {
                let rows = state.arrays.push(array_record(state.run_id, metric));
                let response = MetricsResponse {
                    array_metrics_received: counted(state.response.array_metrics_received, 1),
                    ..state.response
                };
                if rows.len() >= ROWS_PER_INSERT {
                    &&& next == State {
                        phase: Phase::StoringArrays,
                        arrays: Seq::empty(),
                        response,
                        ..state
                    }
                    &&& action matches Action::InsertArrays(batch)
                    &&& batch@ == rows
                } else {
                    &&& next == State { phase: Phase::Receiving, arrays: rows, response, ..state }
                    &&& action == Action::Receive
                }
            }
        },
        Some(Payload::Artifact(artifact)) => match state.pending {
            Some(previous) => {
                &&& next == State { phase: Phase::Discarding(artifact), pending: None, ..state }
                &&& action == Action::RemovePart(previous.id)
            },
            None => begins(state, artifact, next, action),
        },
        Some(Payload::ArtifactChunk(data)) => match state.pending {
            None => refuses(
                state,
                Code::InvalidArgument,
                "artifact chunk has no artifact metadata"@,
                next,
                action,
            ),
            Some(artifact) => if artifact.received + data@.len() > artifact.metadata.size_bytes {
                refuses(
                    state,
                    Code::InvalidArgument,
                    "artifact contains more bytes than declared"@,
                    next,
                    action,
                )
            } else {
                &&& next == State { phase: Phase::Writing(data@.len() as u64), ..state }
                &&& action == Action::WriteChunk(artifact.id, data)
            },
        },
    }
}

/// An event makes sense in a state: messages while receiving, outcomes after
/// actions, nothing after the answer.
pub open spec fn expects(state: State, event: Event) -> bool {
    match state.phase {
        Phase::Receiving => event is Message || event is End || event is StreamFailed,
        Phase::Creating(_) => event is Created || event is Failed,
        Phase::Enqueuing => event is Done,
        Phase::Finished => false,
        _ => event is Done || event is Failed,
    }
}

/// One step: from a state and what happened to the next state and what to do.
pub open spec fn steps(state: State, event: Event, next: State, action: Action) -> bool {
    match (state.phase, event) {
        (Phase::Receiving, Event::Message(request)) => takes(state, request, next, action),
        (Phase::Receiving, Event::End) => if state.pending is Some {
            refuses(
                state,
                Code::InvalidArgument,
                "metrics stream ended before the artifact was complete"@,
                next,
                action,
            )
        } else {
            closes_to(state, None, next, action)
        },
        (Phase::Receiving, Event::StreamFailed(status)) => closes_to(
            state,
            Some(status),
            next,
            action,
        ),
        (Phase::StoringScalars, Event::Done) => receives(state, next, action),
        (Phase::StoringArrays, Event::Done) => receives(state, next, action),
        (Phase::Discarding(artifact), Event::Done) => begins(state, artifact, next, action),
        (Phase::Creating(metadata), Event::Created(id)) => {
            let artifact = PendingArtifact { id, metadata, received: 0 };
            if metadata.size_bytes == 0 {
                publishes(state, artifact, next, action)
            } else {
                receives(State { pending: Some(artifact), ..state }, next, action)
            }
        },
        (Phase::Writing(count), Event::Done) => {
            let before = state.pending->0;
            let artifact = PendingArtifact { received: (before.received + count) as u64, ..before };
            let counted_state = State {
                response: MetricsResponse {
                    artifact_bytes_received: counted(
                        state.response.artifact_bytes_received,
                        count as int,
                    ),
                    ..state.response
                },
                pending: Some(artifact),
                ..state
            };
            if artifact.received == artifact.metadata.size_bytes {
                publishes(counted_state, artifact, next, action)
            } else {
                receives(counted_state, next, action)
            }
        },
        (Phase::Publishing(artifact), Event::Done) => match timestamp_spec(
            artifact.metadata.timestamp_unix_ms,
        ) {
            None => refuses(state, Code::Internal, "timestamp was not in range"@, next, action),
            Some(nanos) => {
                &&& next == State { phase: Phase::Enqueuing, ..state }
                &&& action == Action::Enqueue(
                    StagedArtifact {
                        id: artifact.id,
                        run_id: state.run_id,
                        step: artifact.metadata.step,
                        timestamp_nanos: nanos,
                        name: artifact.metadata.name,
                        content_type: artifact.metadata.content_type,
                        size_bytes: artifact.metadata.size_bytes,
                    },
                )
            },
        },
        (Phase::Enqueuing, Event::Done) => receives(
            State {
                response: MetricsResponse {
                    artifacts_received: counted(state.response.artifacts_received, 1),
                    ..state.response
                },
                ..state
            },
            next,
            action,
        ),
        (Phase::Closing(error), Event::Done) => closes_to(state, error, next, action),
        (Phase::Closing(None), Event::Failed(message)) => fails(state, message, next, action),
        (Phase::Closing(Some(status)), Event::Failed(_)) => closes_to(
            state,
            Some(status),
            next,
            action,
        ),
        (Phase::CleaningUp(status), _) => {
            &&& next == State { phase: Phase::Finished, ..state }
            &&& action == Action::Finish(Err(status))
        },
        (_, Event::Failed(message)) => fails(state, message, next, action),
        _ => false,
    }
}

/// Buffers hold less than an insert, an artifact that is pending misses bytes,
/// a chunk that is being written fits, and a stream closes well only with
/// nothing pending.
pub open spec fn state_wf(state: State) -> bool {
    &&& state.scalars.len() < ROWS_PER_INSERT
    &&& state.arrays.len() < ROWS_PER_INSERT
    &&& (state.pending matches Some(artifact) ==> artifact.received < artifact.metadata.size_bytes)
    &&& match state.phase {
        Phase::Receiving | Phase::StoringScalars | Phase::StoringArrays => true,
        Phase::Writing(count) => state.pending matches Some(artifact) && artifact.received + count
            <= artifact.metadata.size_bytes,
        Phase::Closing(Some(_)) => true,
        Phase::Publishing(artifact) => state.pending is None && artifact.received
            == artifact.metadata.size_bytes,
        Phase::CleaningUp(_) => state.pending is None && state.scalars.len() == 0
            && state.arrays.len() == 0,
        Phase::Finished => state.pending is None && state.scalars.len() == 0 && state.arrays.len()
            == 0,
        _ => state.pending is None,
    }
}

/// A stream of which nothing has come.
pub open spec fn opened(run_id: u128) -> State {
    State {
        run_id,
        phase: Phase::Receiving,
        pending: None,
        scalars: Seq::empty(),
        arrays: Seq::empty(),
        response: MetricsResponse {
            metrics_received: 0,
            array_metrics_received: 0,
            artifacts_received: 0,
            artifact_bytes_received: 0,
        },
    }
}

/// `time::OffsetDateTime::from_unix_timestamp_nanos`, then
/// `unix_timestamp_nanos`: an instant between the years -9999 and 9999 comes
/// back as it went in, and any other is refused with one message.
#[verifier::external_body]
fn checked_unix_nanos(nanos: i128) -> (instant: Result<i128, String>)
    ensures
        match instant {
            Ok(same) => MIN_UNIX_SECONDS <= nanos as int / 1_000_000_000 <= MAX_UNIX_SECONDS && same
                == nanos,
            Err(message) => !(MIN_UNIX_SECONDS <= nanos as int / 1_000_000_000
                <= MAX_UNIX_SECONDS) && message@ == "timestamp was not in range"@,
        },
{
    match time::OffsetDateTime::from_unix_timestamp_nanos(nanos) {
        Ok(instant) => Ok(instant.unix_timestamp_nanos()),
        Err(error) => Err(format!("{error:#}")),
    }
}

/// The nanoseconds of a millisecond timestamp.
pub fn metric_timestamp(timestamp_unix_ms: i64) -> (nanos: Result<i128, Status>)
    ensures
        match nanos {
            Ok(nanos) => timestamp_spec(timestamp_unix_ms) == Some(nanos) && nanos
                == timestamp_unix_ms * 1_000_000,
            Err(status) => timestamp_spec(timestamp_unix_ms) is None && status.says(
                Code::Internal,
                "timestamp was not in range"@,
            ),
        },
{
    let nanos: i128 = timestamp_unix_ms as i128 * 1_000_000;
    match checked_unix_nanos(nanos) {
        Ok(instant) => Ok(instant),
        Err(message) => Err(Status::internal(message)),
    }
}

/// The receiving end of a metrics stream.
pub struct MetricsReceiver {
    run_id: u128,
    phase: Phase,
    pending: Option<PendingArtifact>,
    scalars: Vec<ScalarRecord>,
    arrays: Vec<ArrayRecord>,
    response: MetricsResponse,
}

impl View for MetricsReceiver {
    type V = State;

    closed spec fn view(&self) -> State {
        State {
            run_id: self.run_id,
            phase: self.phase,
            pending: self.pending,
            scalars: self.scalars@,
            arrays: self.arrays@,
            response: self.response,
        }
    }
}

impl MetricsReceiver {
    /// The receiver has room in its buffers and its artifact is incomplete.
    pub open spec fn wf(self) -> bool {
        state_wf(self@)
    }

    /// A receiver of which nothing has come.
    pub fn new(run_id: u128) -> (receiver: MetricsReceiver)
        ensures
            receiver.wf(),
            receiver@ == opened(run_id),
    {
        let receiver = MetricsReceiver {
            run_id,
            phase: Phase::Receiving,
            pending: None,
            scalars: Vec::new(),
            arrays: Vec::new(),
            response: MetricsResponse {
                metrics_received: 0,
                array_metrics_received: 0,
                artifacts_received: 0,
                artifact_bytes_received: 0,
            },
        };
        assert(receiver.scalars@ =~= Seq::<ScalarRecord>::empty());
        assert(receiver.arrays@ =~= Seq::<ArrayRecord>::empty());
        receiver
    }

    fn close(&mut self, error: Option<Status>) -> (action: Action)
        requires
            old(self)@.scalars.len() < ROWS_PER_INSERT,
            old(self)@.arrays.len() < ROWS_PER_INSERT,
            old(self)@.pending matches Some(artifact) ==> artifact.received
                < artifact.metadata.size_bytes,
            error is None ==> old(self)@.pending is None,
        ensures
            final(self).wf(),
            closes_to(old(self)@, error, final(self)@, action),
    {
        if self.scalars.len() > 0 {
            let mut rows: Vec<ScalarRecord> = Vec::new();
            std::mem::swap(&mut rows, &mut self.scalars);
            self.phase = Phase::Closing(error);
            assert(self@.scalars =~= Seq::<ScalarRecord>::empty());
            return Action::InsertScalars(rows);
        }
        if self.arrays.len() > 0 {
            let mut rows: Vec<ArrayRecord> = Vec::new();
            std::mem::swap(&mut rows, &mut self.arrays);
            self.phase = Phase::Closing(error);
            assert(self@.arrays =~= Seq::<ArrayRecord>::empty());
            return Action::InsertArrays(rows);
        }
        match error {
            Some(status) => {
                match self.pending.take() {
                    Some(artifact) => {
                        self.phase = Phase::CleaningUp(status);
                        Action::RemovePart(artifact.id)
                    },
                    None => {
                        self.phase = Phase::Finished;
                        Action::Finish(Err(status))
                    },
                }
            },
            None => {
                self.phase = Phase::Finished;
                Action::Finish(Ok(self.response))
            },
        }
    }

    fn begin(&mut self, artifact: ArtifactMetric) -> (action: Action)
        requires
            old(self)@.scalars.len() < ROWS_PER_INSERT,
            old(self)@.arrays.len() < ROWS_PER_INSERT,
            old(self)@.pending is None,
        ensures
            final(self).wf(),
            begins(old(self)@, artifact, final(self)@, action),
    {
        if artifact.name.as_str().unicode_len() == 0 {
            let status = Status::invalid_argument("artifact name cannot be empty");
            assert(status.says(Code::InvalidArgument, "artifact name cannot be empty"@));
            self.close(Some(status))
        } else {
            self.phase = Phase::Creating(artifact);
            Action::CreatePart
        }
    }

    fn take_scalar(&mut self, metric: ScalarMetric) -> (action: Action)
        requires
            old(self).wf(),
            old(self)@.phase is Receiving,
        ensures
            final(self).wf(),
            takes(old(self)@, Some(Payload::Metric(metric)), final(self)@, action),
    {
        if metric.name.as_str().unicode_len() == 0 {
            let status = Status::invalid_argument("metric name cannot be empty");
            assert(is_refusal(status, metric.name@, metric.timestamp_unix_ms));
            return self.close(Some(status));
        }
        let timestamp_nanos: i128 = match metric_timestamp(metric.timestamp_unix_ms) {
            Ok(nanos) => nanos,
            Err(status) => {
                assert(is_refusal(status, metric.name@, metric.timestamp_unix_ms));
                return self.close(Some(status));
            },
        };
        let record = ScalarRecord {
            timestamp_nanos,
            run_id: self.run_id,
            step: metric.step,
            name: metric.name,
            value: metric.value,
        };
        self.scalars.push(record);
        self.response.metrics_received = self.response.metrics_received.wrapping_add(1);
        if self.scalars.len() >= ROWS_PER_INSERT {
            let mut rows: Vec<ScalarRecord> = Vec::new();
            std::mem::swap(&mut rows, &mut self.scalars);
            self.phase = Phase::StoringScalars;
            assert(self@.scalars =~= Seq::<ScalarRecord>::empty());
            Action::InsertScalars(rows)
        } else {
            Action::Receive
        }
    }

    fn take_array(&mut self, metric: ArrayMetric) -> (action: Action)
        requires
            old(self).wf(),
            old(self)@.phase is Receiving,
        ensures
            final(self).wf(),
            takes(old(self)@, Some(Payload::ArrayMetric(metric)), final(self)@, action),
    {
        if metric.name.as_str().unicode_len() == 0 {
            let status = Status::invalid_argument("metric name cannot be empty");
            assert(is_refusal(status, metric.name@, metric.timestamp_unix_ms));
            return self.close(Some(status));
        }
        let timestamp_nanos: i128 = match metric_timestamp(metric.timestamp_unix_ms) {
            Ok(nanos) => nanos,
            Err(status) => {
                assert(is_refusal(status, metric.name@, metric.timestamp_unix_ms));
                return self.close(Some(status));
            },
        };
        let record = ArrayRecord {
            timestamp_nanos,
            run_id: self.run_id,
            step: metric.step,
            name: metric.name,
            value: metric.value,
        };
        self.arrays.push(record);
        self.response.array_metrics_received = self.response.array_metrics_received.wrapping_add(1);
        if self.arrays.len() >= ROWS_PER_INSERT {
            let mut rows: Vec<ArrayRecord> = Vec::new();
            std::mem::swap(&mut rows, &mut self.arrays);
            self.phase = Phase::StoringArrays;
            assert(self@.arrays =~= Seq::<ArrayRecord>::empty());
            Action::InsertArrays(rows)
        } else {
            Action::Receive
        }
    }

    fn take_chunk(&mut self, data: Vec<u8>) -> (action: Action)
        requires
            old(self).wf(),
            old(self)@.phase is Receiving,
        ensures
            final(self).wf(),
            takes(old(self)@, Some(Payload::ArtifactChunk(data)), final(self)@, action),
    {
        let (id, missing): (u128, u64) = match &self.pending {
            None => {
                let status = Status::invalid_argument("artifact chunk has no artifact metadata");
                assert(status.says(
                    Code::InvalidArgument,
                    "artifact chunk has no artifact metadata"@,
                ));
                return self.close(Some(status));
            },
            Some(artifact) => (artifact.id, artifact.metadata.size_bytes - artifact.received),
        };
        let count: u64 = data.len() as u64;
        if count > missing {
            let status = Status::invalid_argument("artifact contains more bytes than declared");
            assert(status.says(
                Code::InvalidArgument,
                "artifact contains more bytes than declared"@,
            ));
            return self.close(Some(status));
        }
        self.phase = Phase::Writing(count);
        Action::WriteChunk(id, data)
    }

    fn take_message(&mut self, request: Option<Payload>) -> (action: Action)
        requires
            old(self).wf(),
            old(self)@.phase is Receiving,
        ensures
            final(self).wf(),
            takes(old(self)@, request, final(self)@, action),
    {
        match request {
            None => {
                let status = Status::invalid_argument("metrics message has no payload");
                assert(status.says(Code::InvalidArgument, "metrics message has no payload"@));
                self.close(Some(status))
            },
            Some(Payload::Metadata) => {
                let status = Status::invalid_argument(
                    "metrics stream metadata may only appear first",
                );
                assert(status.says(
                    Code::InvalidArgument,
                    "metrics stream metadata may only appear first"@,
                ));
                self.close(Some(status))
            },
            Some(Payload::Metric(metric)) => self.take_scalar(metric),
            Some(Payload::ArrayMetric(metric)) => self.take_array(metric),
            Some(Payload::Artifact(artifact)) => {
                match self.pending.take() {
                    Some(previous) => {
                        self.phase = Phase::Discarding(artifact);
                        Action::RemovePart(previous.id)
                    },
                    None => self.begin(artifact),
                }
            },
            Some(Payload::ArtifactChunk(data)) => self.take_chunk(data),
        }
    }

    /// The bytes of a chunk are written.
    fn chunk_written(&mut self, count: u64) -> (action: Action)
        requires
            old(self).wf(),
            old(self)@.phase == Phase::Writing(count),
        ensures
            final(self).wf(),
            steps(old(self)@, Event::Done, final(self)@, action),
    {
        self.response.artifact_bytes_received =
        self.response.artifact_bytes_received.wrapping_add(count);
        match self.pending.take() {
            Some(before) => {
                let artifact = PendingArtifact {
                    id: before.id,
                    received: before.received + count,
                    metadata: before.metadata,
                };
                if artifact.received == artifact.metadata.size_bytes {
                    let id: u128 = artifact.id;
                    self.phase = Phase::Publishing(artifact);
                    Action::PublishPart(id)
                } else {
                    self.pending = Some(artifact);
                    self.phase = Phase::Receiving;
                    Action::Receive
                }
            },
            None => Action::Receive,
        }
    }

    /// An artifact has its final name.
    fn published(&mut self, artifact: PendingArtifact) -> (action: Action)
        requires
            old(self)@.pending is None,
            old(self)@.scalars.len() < ROWS_PER_INSERT,
            old(self)@.arrays.len() < ROWS_PER_INSERT,
        ensures
            final(self).wf(),
            steps(
                State { phase: Phase::Publishing(artifact), ..old(self)@ },
                Event::Done,
                final(self)@,
                action,
            ),
    {
        let timestamp_nanos: i128 = match metric_timestamp(artifact.metadata.timestamp_unix_ms) {
            Ok(nanos) => nanos,
            Err(status) => {
                assert(status.says(Code::Internal, "timestamp was not in range"@));
                return self.close(Some(status));
            },
        };
        self.phase = Phase::Enqueuing;
        Action::Enqueue(
            StagedArtifact {
                id: artifact.id,
                run_id: self.run_id,
                step: artifact.metadata.step,
                timestamp_nanos,
                name: artifact.metadata.name,
                content_type: artifact.metadata.content_type,
                size_bytes: artifact.metadata.size_bytes,
            },
        )
    }

    /// One step: takes what happened and says what to do next.
    pub fn step(&mut self, event: Event) -> (action: Action)
        requires
            old(self).wf(),
            expects(old(self)@, event),
        ensures
            final(self).wf(),
            steps(old(self)@, event, final(self)@, action),
    {
        let mut phase = Phase::Receiving;
        std::mem::swap(&mut phase, &mut self.phase);
        match (phase, event) {
            (Phase::Receiving, Event::Message(request)) => self.take_message(request),
            (Phase::Receiving, Event::End) => {
                if self.pending.is_some() {
                    let status = Status::invalid_argument(
                        "metrics stream ended before the artifact was complete",
                    );
                    assert(status.says(
                        Code::InvalidArgument,
                        "metrics stream ended before the artifact was complete"@,
                    ));
                    self.close(Some(status))
                } else {
                    self.close(None)
                }
            },
            (Phase::Receiving, Event::StreamFailed(status)) => self.close(Some(status)),
            (Phase::StoringScalars, Event::Done) => Action::Receive,
            (Phase::StoringArrays, Event::Done) => Action::Receive,
            (Phase::Discarding(artifact), Event::Done) => self.begin(artifact),
            (Phase::Creating(metadata), Event::Created(id)) => {
                let artifact = PendingArtifact { id, metadata, received: 0 };
                if artifact.metadata.size_bytes == 0 {
                    self.phase = Phase::Publishing(artifact);
                    Action::PublishPart(id)
                } else {
                    self.pending = Some(artifact);
                    Action::Receive
                }
            },
            (Phase::Writing(count), Event::Done) => {
                self.phase = Phase::Writing(count);
                self.chunk_written(count)
            },
            (Phase::Publishing(artifact), Event::Done) => self.published(artifact),
            (Phase::Enqueuing, Event::Done) => {
                self.response.artifacts_received = self.response.artifacts_received.wrapping_add(1);
                Action::Receive
            },
            (Phase::Closing(error), Event::Done) => self.close(error),
            (Phase::Closing(None), Event::Failed(message)) => self.close(
                Some(Status::internal(message)),
            ),
            (Phase::Closing(Some(status)), Event::Failed(_)) => self.close(Some(status)),
            (Phase::CleaningUp(status), _) => {
                self.phase = Phase::Finished;
                Action::Finish(Err(status))
            },
            (_, Event::Failed(message)) => self.close(Some(Status::internal(message))),
            _ => Action::Receive,
        }
    }
}

/// A stream's history: the states it went through, what happened and what was
/// done.
pub open spec fn is_history(
    run_id: u128,
    states: Seq<State>,
    events: Seq<Event>,
    actions: Seq<Action>,
) -> bool {
    &&& states.len() == events.len() + 1
    &&& actions.len() == events.len()
    &&& states[0] == opened(run_id)
    &&& forall|i: int|
        #![trigger events[i]]
        0 <= i < events.len() ==> expects(states[i], events[i]) && steps(
            states[i],
            events[i],
            states[i + 1],
            actions[i],
        )
}

/// All the scalar rows handed over for insertion, in order.
pub open spec fn inserted_scalars(actions: Seq<Action>) -> Seq<ScalarRecord>
    decreases actions.len(),
{
    if actions.len() == 0 {
        Seq::empty()
    } else {
        let before = inserted_scalars(actions.drop_last());
        match actions.last() {
            Action::InsertScalars(rows) => before + rows@,
            _ => before,
        }
    }
}

/// All the array rows handed over for insertion, in order.
pub open spec fn inserted_arrays(actions: Seq<Action>) -> Seq<ArrayRecord>
    decreases actions.len(),
{
    if actions.len() == 0 {
        Seq::empty()
    } else {
        let before = inserted_arrays(actions.drop_last());
        match actions.last() {
            Action::InsertArrays(rows) => before + rows@,
            _ => before,
        }
    }
}

/// The rows of the scalar metrics that came and can be stored, in order.
pub open spec fn accepted_scalars(run_id: u128, events: Seq<Event>) -> Seq<ScalarRecord>
    decreases events.len(),
{
    if events.len() == 0 {
        Seq::empty()
    } else {
        let before = accepted_scalars(run_id, events.drop_last());
        match events.last() {
            Event::Message(Some(Payload::Metric(metric))) => if acceptable(
                metric.name@,
                metric.timestamp_unix_ms,
            ) {
                before.push(scalar_record(run_id, metric))
            } else {
                before
            },
            _ => before,
        }
    }
}

/// The rows of the array metrics that came and can be stored, in order.
pub open spec fn accepted_arrays(run_id: u128, events: Seq<Event>) -> Seq<ArrayRecord>
    decreases events.len(),
{
    if events.len() == 0 {
        Seq::empty()
    } else {
        let before = accepted_arrays(run_id, events.drop_last());
        match events.last() {
            Event::Message(Some(Payload::ArrayMetric(metric))) => if acceptable(
                metric.name@,
                metric.timestamp_unix_ms,
            ) {
                before.push(array_record(run_id, metric))
            } else {
                before
            },
            _ => before,
        }
    }
}

/// How many artifacts were handed over for upload.
pub open spec fn enqueued(actions: Seq<Action>) -> nat
    decreases actions.len(),
{
    if actions.len() == 0 {
        0
    } else {
        enqueued(actions.drop_last()) + if actions.last() is Enqueue { 1nat } else { 0nat }
    }
}

/// How many artifact bytes were handed over for writing.
pub open spec fn bytes_written(actions: Seq<Action>) -> nat
    decreases actions.len(),
{
    if actions.len() == 0 {
        0
    } else {
        bytes_written(actions.drop_last()) + match actions.last() {
            Action::WriteChunk(_, data) => data@.len(),
            _ => 0,
        }
    }
}

/// Nothing has gone wrong so far.
pub open spec fn unbroken(state: State) -> bool {
    !(state.phase is CleaningUp || state.phase is Finished || (state.phase matches Phase::Closing(
        error,
    ) && error is Some))
}

/// A number read modulo the width of a counter.
pub open spec fn as_counter(n: nat) -> u64 {
    (n % 0x1_0000_0000_0000_0000) as u64
}

proof fn lemma_counted(n: nat, more: nat)
    ensures
        counted(as_counter(n), more as int) == as_counter(n + more),
{
    assert((n % 0x1_0000_0000_0000_0000 + more) % 0x1_0000_0000_0000_0000 == (n + more)
        % 0x1_0000_0000_0000_0000) by (nonlinear_arith);
}

proof fn lemma_step_keeps_wf(state: State, event: Event, next: State, action: Action)
    requires
        state_wf(state),
        expects(state, event),
        steps(state, event, next, action),
    ensures
        state_wf(next),
        next.run_id == state.run_id,
{
}

proof fn lemma_history_prefix(
    run_id: u128,
    states: Seq<State>,
    events: Seq<Event>,
    actions: Seq<Action>,
)
    requires
        is_history(run_id, states, events, actions),
        events.len() > 0,
    ensures
        is_history(run_id, states.drop_last(), events.drop_last(), actions.drop_last()),
        states.drop_last().last() == states[events.len() - 1],
        expects(states[events.len() - 1], events.last()),
        steps(states[events.len() - 1], events.last(), states.last(), actions.last()),
{
    let n = events.len() - 1;
    assert(events[n] == events.last());
    assert forall|i: int|
        #![trigger events.drop_last()[i]]
        0 <= i < events.drop_last().len() implies expects(
        states.drop_last()[i],
        events.drop_last()[i],
    ) && steps(
        states.drop_last()[i],
        events.drop_last()[i],
        states.drop_last()[i + 1],
        actions.drop_last()[i],
    ) by {
        assert(events[i] == events.drop_last()[i]);
    }
}

/// Every state of a stream keeps the receiver's invariant.
pub proof fn law_history_is_well_formed(
    run_id: u128,
    states: Seq<State>,
    events: Seq<Event>,
    actions: Seq<Action>,
)
    requires
        is_history(run_id, states, events, actions),
    ensures
        state_wf(states.last()),
        states.last().run_id == run_id,
    decreases events.len(),
{
    if events.len() > 0 {
        lemma_history_prefix(run_id, states, events, actions);
        law_history_is_well_formed(
            run_id,
            states.drop_last(),
            events.drop_last(),
            actions.drop_last(),
        );
        lemma_step_keeps_wf(
            states[events.len() - 1],
            events.last(),
            states.last(),
            actions.last(),
        );
    }
}

/// Every metric that can be stored is handed over for insertion exactly once
/// and in the order it came, but for those still buffered; and the counters
/// tell how many there were.
pub proof fn law_metrics_are_stored_in_order(
    run_id: u128,
    states: Seq<State>,
    events: Seq<Event>,
    actions: Seq<Action>,
)
    requires
        is_history(run_id, states, events, actions),
    ensures
        inserted_scalars(actions) + states.last().scalars == accepted_scalars(run_id, events),
        inserted_arrays(actions) + states.last().arrays == accepted_arrays(run_id, events),
        states.last().response.metrics_received == as_counter(
            accepted_scalars(run_id, events).len(),
        ),
        states.last().response.array_metrics_received == as_counter(
            accepted_arrays(run_id, events).len(),
        ),
    decreases events.len(),
{
    if events.len() == 0 {
        assert(inserted_scalars(actions) + states.last().scalars =~= accepted_scalars(
            run_id,
            events,
        ));
        assert(inserted_arrays(actions) + states.last().arrays =~= accepted_arrays(run_id, events));
    } else {
        let after = states.last();
        lemma_history_prefix(run_id, states, events, actions);
        law_metrics_are_stored_in_order(
            run_id,
            states.drop_last(),
            events.drop_last(),
            actions.drop_last(),
        );
        law_history_is_well_formed(
            run_id,
            states.drop_last(),
            events.drop_last(),
            actions.drop_last(),
        );
        let scalars = accepted_scalars(run_id, events.drop_last());
        let arrays = accepted_arrays(run_id, events.drop_last());
        lemma_counted(scalars.len(), 1);
        lemma_counted(arrays.len(), 1);
        assert(inserted_scalars(actions) + after.scalars =~= accepted_scalars(run_id, events));
        assert(inserted_arrays(actions) + after.arrays =~= accepted_arrays(run_id, events));
    }
}

/// When the caller has been answered, every metric that can be stored has been
/// handed over for insertion, whether the stream ended well or not.
pub proof fn law_answered_stream_left_no_rows(
    run_id: u128,
    states: Seq<State>,
    events: Seq<Event>,
    actions: Seq<Action>,
)
    requires
        is_history(run_id, states, events, actions),
        events.len() > 0,
        actions.last() is Finish,
    ensures
        inserted_scalars(actions) == accepted_scalars(run_id, events),
        inserted_arrays(actions) == accepted_arrays(run_id, events),
        states.last().pending is None,
{
    lemma_history_prefix(run_id, states, events, actions);
    law_history_is_well_formed(run_id, states, events, actions);
    law_metrics_are_stored_in_order(run_id, states, events, actions);
    assert(states.last().phase is Finished);
    assert(inserted_scalars(actions) + states.last().scalars =~= inserted_scalars(actions));
    assert(inserted_arrays(actions) + states.last().arrays =~= inserted_arrays(actions));
}

proof fn lemma_artifacts_counted(
    run_id: u128,
    states: Seq<State>,
    events: Seq<Event>,
    actions: Seq<Action>,
)
    requires
        is_history(run_id, states, events, actions),
    ensures
        unbroken(states.last()) ==> ({
            let state = states.last();
            let enqueuing = if state.phase is Enqueuing { 1int } else { 0int };
            let writing = match state.phase {
                Phase::Writing(count) => count as int,
                _ => 0,
            };
            &&& enqueued(actions) >= enqueuing
            &&& bytes_written(actions) >= writing
            &&& state.response.artifacts_received == as_counter(
                (enqueued(actions) - enqueuing) as nat,
            )
            &&& state.response.artifact_bytes_received == as_counter(
                (bytes_written(actions) - writing) as nat,
            )
        }),
    decreases events.len(),
{
    if events.len() > 0 {
        let before = states[events.len() - 1];
        lemma_history_prefix(run_id, states, events, actions);
        lemma_artifacts_counted(
            run_id,
            states.drop_last(),
            events.drop_last(),
            actions.drop_last(),
        );
        law_history_is_well_formed(
            run_id,
            states.drop_last(),
            events.drop_last(),
            actions.drop_last(),
        );
        if before.phase is Enqueuing {
            lemma_counted((enqueued(actions.drop_last()) - 1) as nat, 1);
        }
        if let Phase::Writing(count) = before.phase {
            lemma_counted((bytes_written(actions.drop_last()) - count) as nat, count as nat);
        }
    }
}

/// A stream that ends well is acknowledged with what it brought: the metrics
/// stored, the artifacts handed over for upload and their bytes written.
pub proof fn law_acknowledged_with_what_came(
    run_id: u128,
    states: Seq<State>,
    events: Seq<Event>,
    actions: Seq<Action>,
    response: MetricsResponse,
)
    requires
        is_history(run_id, states, events, actions),
        events.len() > 0,
        actions.last() == Action::Finish(Ok(response)),
    ensures
        response.metrics_received == as_counter(inserted_scalars(actions).len()),
        response.array_metrics_received == as_counter(inserted_arrays(actions).len()),
        response.artifacts_received == as_counter(enqueued(actions)),
        response.artifact_bytes_received == as_counter(bytes_written(actions)),
{
    lemma_history_prefix(run_id, states, events, actions);
    law_metrics_are_stored_in_order(run_id, states, events, actions);
    law_answered_stream_left_no_rows(run_id, states, events, actions);
    lemma_artifacts_counted(
        run_id,
        states.drop_last(),
        events.drop_last(),
        actions.drop_last(),
    );
}

/// Rows go in a thousand at a time while the stream is open, and no insert is
/// empty or larger.
pub proof fn law_rows_go_in_by_the_thousand(
    state: State,
    event: Event,
    next: State,
    action: Action,
)
    requires
        state_wf(state),
        expects(state, event),
        steps(state, event, next, action),
    ensures
        action matches Action::InsertScalars(rows) ==> {
            &&& 0 < rows@.len() <= ROWS_PER_INSERT
            &&& !(next.phase is Closing) ==> rows@.len() == ROWS_PER_INSERT
        },
        action matches Action::InsertArrays(rows) ==> {
            &&& 0 < rows@.len() <= ROWS_PER_INSERT
            &&& !(next.phase is Closing) ==> rows@.len() == ROWS_PER_INSERT
        },
{
}

/// An artifact is published only when every declared byte has been written.
pub proof fn law_published_when_complete(
    state: State,
    event: Event,
    next: State,
    action: Action,
    id: u128,
)
    requires
        state_wf(state),
        expects(state, event),
        steps(state, event, next, action),
        action == Action::PublishPart(id),
    ensures
        next.phase matches Phase::Publishing(artifact) && artifact.id == id && artifact.received
            == artifact.metadata.size_bytes,
{
}

/// The stream is open: it has not begun to close.
pub open spec fn is_open(state: State) -> bool {
    !(state.phase is Closing || state.phase is CleaningUp || state.phase is Finished)
}

/// The scalar rows that an action hands over for insertion.
pub open spec fn scalar_rows(action: Action) -> Seq<ScalarRecord> {
    match action {
        Action::InsertScalars(rows) => rows@,
        _ => Seq::empty(),
    }
}

/// The array rows that an action hands over for insertion.
pub open spec fn array_rows(action: Action) -> Seq<ArrayRecord> {
    match action {
        Action::InsertArrays(rows) => rows@,
        _ => Seq::empty(),
    }
}

/// The scalar rows that are stored: those whose insertion was done.
pub open spec fn stored_scalars(events: Seq<Event>, actions: Seq<Action>) -> Seq<ScalarRecord>
    decreases events.len(),
{
    if events.len() < 2 {
        Seq::empty()
    } else {
        let before = stored_scalars(events.drop_last(), actions.drop_last());
        if events.last() is Done {
            before + scalar_rows(actions[events.len() - 2])
        } else {
            before
        }
    }
}

/// The array rows that are stored: those whose insertion was done.
pub open spec fn stored_arrays(events: Seq<Event>, actions: Seq<Action>) -> Seq<ArrayRecord>
    decreases events.len(),
{
    if events.len() < 2 {
        Seq::empty()
    } else {
        let before = stored_arrays(events.drop_last(), actions.drop_last());
        if events.last() is Done {
            before + array_rows(actions[events.len() - 2])
        } else {
            before
        }
    }
}

/// The stream is open, or closes without an error so far.
spec fn is_well(state: State) -> bool {
    is_open(state) || state.phase == Phase::Closing(None)
}

/// The last action hands rows over exactly where the phase says so.
spec fn hands_over(state: State, action: Action) -> bool {
    &&& is_open(state) && !(state.phase is StoringScalars) ==> !(action is InsertScalars)
    &&& is_open(state) && !(state.phase is StoringArrays) ==> !(action is InsertArrays)
    &&& awaits_insert(state) ==> action is InsertScalars || action is InsertArrays
}

/// Rows are being inserted.
spec fn awaits_insert(state: State) -> bool {
    state.phase is StoringScalars || state.phase is StoringArrays || state.phase is Closing
}

/// One step of a stream that goes well: an insertion that was awaited is done,
/// and an open stream hands over full inserts only.
proof fn lemma_insert_step(before: State, event: Event, after: State, action: Action)
    requires
        state_wf(before),
        expects(before, event),
        steps(before, event, after, action),
        is_well(after),
    ensures
        is_well(before),
        is_open(after) ==> is_open(before),
        hands_over(after, action),
        awaits_insert(before) ==> event is Done,
        is_open(after) && action is InsertScalars ==> scalar_rows(action).len()
            == ROWS_PER_INSERT,
        is_open(after) && action is InsertArrays ==> array_rows(action).len() == ROWS_PER_INSERT,
{
}

proof fn lemma_stored(
    run_id: u128,
    states: Seq<State>,
    events: Seq<Event>,
    actions: Seq<Action>,
)
    requires
        is_history(run_id, states, events, actions),
        is_well(states.last()),
    ensures
        events.len() == 0 ==> states.last().phase is Receiving,
        events.len() > 0 ==> {
            &&& inserted_scalars(actions) == stored_scalars(events, actions) + scalar_rows(
                actions.last(),
            )
            &&& inserted_arrays(actions) == stored_arrays(events, actions) + array_rows(
                actions.last(),
            )
            &&& hands_over(states.last(), actions.last())
        },
        is_open(states.last()) ==> inserted_scalars(actions).len() % ROWS_PER_INSERT as nat == 0
            && inserted_arrays(actions).len() % ROWS_PER_INSERT as nat == 0,
    decreases events.len(),
{
    if events.len() > 0 {
        let n = events.len() - 1;
        let (events_before, actions_before) = (events.drop_last(), actions.drop_last());
        lemma_history_prefix(run_id, states, events, actions);
        law_history_is_well_formed(run_id, states.drop_last(), events_before, actions_before);
        lemma_insert_step(states[n], events.last(), states.last(), actions.last());
        lemma_stored(run_id, states.drop_last(), events_before, actions_before);
        lemma_insertion_done(states[n], events, actions);
        assert(inserted_scalars(actions) =~= inserted_scalars(actions_before) + scalar_rows(
            actions.last(),
        ));
        assert(inserted_arrays(actions) =~= inserted_arrays(actions_before) + array_rows(
            actions.last(),
        ));
    }
}

/// After a step of a stream that goes well, everything that was handed over
/// before it is stored.
proof fn lemma_insertion_done(before: State, events: Seq<Event>, actions: Seq<Action>)
    requires
        events.len() > 0,
        actions.len() == events.len(),
        awaits_insert(before) ==> events.last() is Done,
        is_well(before),
        events.len() > 1 ==> {
            let last = actions[events.len() - 2];
            let (events_before, actions_before) = (events.drop_last(), actions.drop_last());
            &&& hands_over(before, last)
            &&& inserted_scalars(actions_before) == stored_scalars(events_before, actions_before)
                + scalar_rows(last)
            &&& inserted_arrays(actions_before) == stored_arrays(events_before, actions_before)
                + array_rows(last)
        },
    ensures
        stored_scalars(events, actions) == inserted_scalars(actions.drop_last()),
        stored_arrays(events, actions) == inserted_arrays(actions.drop_last()),
{
    let actions_before = actions.drop_last();
    assert(stored_scalars(events, actions) =~= inserted_scalars(actions_before));
    assert(stored_arrays(events, actions) =~= inserted_arrays(actions_before));
}

/// While a stream is open, of the `k` metrics of a kind that came and can be
/// stored exactly the first `1000 * (k / 1000)` have been handed over for
/// insertion, whatever came of the other kind; between insertions they are
/// stored. A stream that ends well has stored all of them and is answered with
/// how many they were.
pub proof fn law_stored_by_the_thousand(
    run_id: u128,
    states: Seq<State>,
    events: Seq<Event>,
    actions: Seq<Action>,
)
    requires
        is_history(run_id, states, events, actions),
    ensures
        ({
            let state = states.last();
            let scalars = accepted_scalars(run_id, events);
            let arrays = accepted_arrays(run_id, events);
            let full_scalars = ROWS_PER_INSERT * (scalars.len() as int / ROWS_PER_INSERT as int);
            let full_arrays = ROWS_PER_INSERT * (arrays.len() as int / ROWS_PER_INSERT as int);
            &&& is_open(state) ==> inserted_scalars(actions) == scalars.take(full_scalars)
            &&& is_open(state) ==> inserted_arrays(actions) == arrays.take(full_arrays)
            &&& is_open(state) && !(state.phase is StoringScalars) ==> stored_scalars(
                events,
                actions,
            ) == scalars.take(full_scalars)
            &&& is_open(state) && !(state.phase is StoringArrays) ==> stored_arrays(events, actions)
                == arrays.take(full_arrays)
            &&& events.len() > 0 ==> (actions.last() matches Action::Finish(Ok(response)) ==> {
                &&& stored_scalars(events, actions) == scalars
                &&& stored_arrays(events, actions) == arrays
                &&& scalars.len() <= u64::MAX ==> response.metrics_received == scalars.len()
                &&& arrays.len() <= u64::MAX ==> response.array_metrics_received == arrays.len()
            })
        }),
{
    let state = states.last();
    let scalars = accepted_scalars(run_id, events);
    let arrays = accepted_arrays(run_id, events);
    law_history_is_well_formed(run_id, states, events, actions);
    law_metrics_are_stored_in_order(run_id, states, events, actions);
    if is_open(state) {
        lemma_stored(run_id, states, events, actions);
        lemma_full_part(inserted_scalars(actions), state.scalars);
        lemma_full_part(inserted_arrays(actions), state.arrays);
        if events.len() > 0 {
            assert(stored_scalars(events, actions) + Seq::<ScalarRecord>::empty()
                =~= stored_scalars(events, actions));
            assert(stored_arrays(events, actions) + Seq::<ArrayRecord>::empty() =~= stored_arrays(
                events,
                actions,
            ));
        } else {
            assert(stored_scalars(events, actions) =~= inserted_scalars(actions));
            assert(stored_arrays(events, actions) =~= inserted_arrays(actions));
        }
    }
    if events.len() > 0 {
        if let Action::Finish(Ok(response)) = actions.last() {
            let n = events.len() - 1;
            let (events_before, actions_before) = (events.drop_last(), actions.drop_last());
            lemma_history_prefix(run_id, states, events, actions);
            law_answered_stream_left_no_rows(run_id, states, events, actions);
            law_acknowledged_with_what_came(run_id, states, events, actions, response);
            assert(is_well(states[n]));
            lemma_stored(run_id, states.drop_last(), events_before, actions_before);
            if n > 0 {
                assert(actions[n - 1] == actions_before.last());
            }
            assert(stored_scalars(events, actions) =~= inserted_scalars(actions_before));
            assert(stored_arrays(events, actions) =~= inserted_arrays(actions_before));
        }
    }
}

proof fn lemma_full_part<T>(inserted: Seq<T>, buffered: Seq<T>)
    requires
        inserted.len() % ROWS_PER_INSERT as nat == 0,
        buffered.len() < ROWS_PER_INSERT,
    ensures
        ({
            let all = inserted + buffered;
            inserted == all.take(ROWS_PER_INSERT * (all.len() as int / ROWS_PER_INSERT as int))
        }),
{
    let all = inserted + buffered;
    assert(all.take(inserted.len() as int) =~= inserted);
}

/// The scalar metrics that came and can be stored, in order: those with a name
/// and a timestamp between the years -9999 and 9999.
pub open spec fn scalar_metrics(events: Seq<Event>) -> Seq<ScalarMetric>
    decreases events.len(),
{
    if events.len() == 0 {
        Seq::empty()
    } else {
        match events.last() {
            Event::Message(Some(Payload::Metric(metric))) => if metric.name@.len() > 0
                && -377_705_116_800_000 <= metric.timestamp_unix_ms <= 253_402_300_799_999 {
                scalar_metrics(events.drop_last()).push(metric)
            } else {
                scalar_metrics(events.drop_last())
            },
            _ => scalar_metrics(events.drop_last()),
        }
    }
}

proof fn lemma_scalar_rows(run_id: u128, events: Seq<Event>)
    ensures
        accepted_scalars(run_id, events).len() == scalar_metrics(events).len(),
        forall|i: int|
            0 <= i < scalar_metrics(events).len() ==> {
                &&& (#[trigger] accepted_scalars(run_id, events)[i]).run_id == run_id
                &&& accepted_scalars(run_id, events)[i].step == scalar_metrics(events)[i].step
                &&& accepted_scalars(run_id, events)[i].name == scalar_metrics(events)[i].name
                &&& accepted_scalars(run_id, events)[i].value == scalar_metrics(events)[i].value
                &&& accepted_scalars(run_id, events)[i].timestamp_nanos
                    == scalar_metrics(events)[i].timestamp_unix_ms * 1_000_000
            },
    decreases events.len(),
{
    if events.len() > 0 {
        let shorter = events.drop_last();
        lemma_scalar_rows(run_id, shorter);
        let (rows, metrics) = (accepted_scalars(run_id, events), scalar_metrics(events));
        assert forall|i: int| 0 <= i < metrics.len() implies {
            &&& (#[trigger] rows[i]).run_id == run_id
            &&& rows[i].step == metrics[i].step
            &&& rows[i].name == metrics[i].name
            &&& rows[i].value == metrics[i].value
            &&& rows[i].timestamp_nanos == metrics[i].timestamp_unix_ms * 1_000_000
        } by {
            if i < scalar_metrics(shorter).len() {
                assert(rows[i] == accepted_scalars(run_id, shorter)[i]);
                assert(metrics[i] == scalar_metrics(shorter)[i]);
            }
        }
    }
}

/// Every row is its metric: of the scalar rows that were handed over for insertion
/// and those still buffered, row `i` has the step, the name and the value of
/// metric `i` of those that came and can be stored, the stream's run, and the
/// metric's timestamp in nanoseconds; there are no others.
pub proof fn law_scalar_rows_carry_what_came(
    run_id: u128,
    states: Seq<State>,
    events: Seq<Event>,
    actions: Seq<Action>,
)
    requires
        is_history(run_id, states, events, actions),
    ensures
        ({
            let rows = inserted_scalars(actions) + states.last().scalars;
            let metrics = scalar_metrics(events);
            &&& rows.len() == metrics.len()
            &&& forall|i: int|
                0 <= i < rows.len() ==> {
                    &&& (#[trigger] rows[i]).run_id == run_id
                    &&& rows[i].step == metrics[i].step
                    &&& rows[i].name@ == metrics[i].name@
                    &&& rows[i].value == metrics[i].value
                    &&& rows[i].timestamp_nanos == metrics[i].timestamp_unix_ms * 1_000_000
                }
        }),
        events.len() > 0 && actions.last() is Finish ==> inserted_scalars(actions).len()
            == scalar_metrics(events).len(),
        events.len() > 0 ==> (actions.last() matches Action::Finish(Ok(response)) ==> stored_scalars(
            events,
            actions,
        ) == inserted_scalars(actions)),
{
    law_metrics_are_stored_in_order(run_id, states, events, actions);
    lemma_scalar_rows(run_id, events);
    if events.len() > 0 {
        if actions.last() is Finish {
            law_answered_stream_left_no_rows(run_id, states, events, actions);
        }
        law_stored_by_the_thousand(run_id, states, events, actions);
    }
}

/// The array metrics that came and can be stored, in order: those with a name
/// and a timestamp between the years -9999 and 9999.
pub open spec fn array_metrics(events: Seq<Event>) -> Seq<ArrayMetric>
    decreases events.len(),
{
    if events.len() == 0 {
        Seq::empty()
    } else {
        match events.last() {
            Event::Message(Some(Payload::ArrayMetric(metric))) => if metric.name@.len() > 0
                && -377_705_116_800_000 <= metric.timestamp_unix_ms <= 253_402_300_799_999 {
                array_metrics(events.drop_last()).push(metric)
            } else {
                array_metrics(events.drop_last())
            },
            _ => array_metrics(events.drop_last()),
        }
    }
}

proof fn lemma_array_rows(run_id: u128, events: Seq<Event>)
    ensures
        accepted_arrays(run_id, events).len() == array_metrics(events).len(),
        forall|i: int|
            0 <= i < array_metrics(events).len() ==> {
                &&& (#[trigger] accepted_arrays(run_id, events)[i]).run_id == run_id
                &&& accepted_arrays(run_id, events)[i].step == array_metrics(events)[i].step
                &&& accepted_arrays(run_id, events)[i].name == array_metrics(events)[i].name
                &&& accepted_arrays(run_id, events)[i].value == array_metrics(events)[i].value
                &&& accepted_arrays(run_id, events)[i].timestamp_nanos
                    == array_metrics(events)[i].timestamp_unix_ms * 1_000_000
            },
    decreases events.len(),
{
    if events.len() > 0 {
        let shorter = events.drop_last();
        lemma_array_rows(run_id, shorter);
        let (rows, metrics) = (accepted_arrays(run_id, events), array_metrics(events));
        assert forall|i: int| 0 <= i < metrics.len() implies {
            &&& (#[trigger] rows[i]).run_id == run_id
            &&& rows[i].step == metrics[i].step
            &&& rows[i].name == metrics[i].name
            &&& rows[i].value == metrics[i].value
            &&& rows[i].timestamp_nanos == metrics[i].timestamp_unix_ms * 1_000_000
        } by {
            if i < array_metrics(shorter).len() {
                assert(rows[i] == accepted_arrays(run_id, shorter)[i]);
                assert(metrics[i] == array_metrics(shorter)[i]);
            }
        }
    }
}

/// Every row is its metric: of the array rows that were handed over for insertion
/// and those still buffered, row `i` has the step, the name and the value of
/// metric `i` of those that came and can be stored, the stream's run, and the
/// metric's timestamp in nanoseconds; there are no others.
pub proof fn law_array_rows_carry_what_came(
    run_id: u128,
    states: Seq<State>,
    events: Seq<Event>,
    actions: Seq<Action>,
)
    requires
        is_history(run_id, states, events, actions),
    ensures
        ({
            let rows = inserted_arrays(actions) + states.last().arrays;
            let metrics = array_metrics(events);
            &&& rows.len() == metrics.len()
            &&& forall|i: int|
                0 <= i < rows.len() ==> {
                    &&& (#[trigger] rows[i]).run_id == run_id
                    &&& rows[i].step == metrics[i].step
                    &&& rows[i].name@ == metrics[i].name@
                    &&& rows[i].value == metrics[i].value
                    &&& rows[i].timestamp_nanos == metrics[i].timestamp_unix_ms * 1_000_000
                }
        }),
        events.len() > 0 && actions.last() is Finish ==> inserted_arrays(actions).len()
            == array_metrics(events).len(),
        events.len() > 0 ==> (actions.last() matches Action::Finish(Ok(response)) ==> stored_arrays(
            events,
            actions,
        ) == inserted_arrays(actions)),
{
    law_metrics_are_stored_in_order(run_id, states, events, actions);
    lemma_array_rows(run_id, events);
    if events.len() > 0 {
        if actions.last() is Finish {
            law_answered_stream_left_no_rows(run_id, states, events, actions);
        }
        law_stored_by_the_thousand(run_id, states, events, actions);
    }
}

/// The last artifact that was described.
pub open spec fn last_artifact(events: Seq<Event>) -> Option<ArtifactMetric>
    decreases events.len(),
{
    if events.len() == 0 {
        None
    } else {
        match events.last() {
            Event::Message(Some(Payload::Artifact(artifact))) => Some(artifact),
            _ => last_artifact(events.drop_last()),
        }
    }
}

/// The identifier of the last part file that was created.
pub open spec fn last_created(events: Seq<Event>) -> Option<u128>
    decreases events.len(),
{
    if events.len() == 0 {
        None
    } else {
        match events.last() {
            Event::Created(id) => Some(id),
            _ => last_created(events.drop_last()),
        }
    }
}

/// How many bytes came in chunks since the last artifact was described.
pub open spec fn bytes_since_artifact(events: Seq<Event>) -> nat
    decreases events.len(),
{
    if events.len() == 0 {
        0
    } else {
        match events.last() {
            Event::Message(Some(Payload::Artifact(_))) => 0,
            Event::Message(Some(Payload::ArtifactChunk(data))) => bytes_since_artifact(
                events.drop_last(),
            ) + data@.len(),
            _ => bytes_since_artifact(events.drop_last()),
        }
    }
}

/// The artifact in hand is the last one that was described, under the last
/// identifier that was drawn, with the bytes that came for it.
spec fn artifact_holds(state: State, events: Seq<Event>) -> bool {
    &&& state.phase matches Phase::Discarding(artifact) ==> last_artifact(events) == Some(artifact)
        && bytes_since_artifact(events) == 0
    &&& state.phase matches Phase::Creating(artifact) ==> last_artifact(events) == Some(artifact)
        && bytes_since_artifact(events) == 0 && artifact.name@.len() > 0
    &&& state.phase matches Phase::Publishing(artifact) ==> last_artifact(events) == Some(
        artifact.metadata,
    ) && last_created(events) == Some(artifact.id) && bytes_since_artifact(events)
        == artifact.received && artifact.metadata.name@.len() > 0
    &&& is_open(state) ==> (state.pending matches Some(artifact) ==> {
        &&& last_artifact(events) == Some(artifact.metadata)
        &&& artifact.metadata.name@.len() > 0
        &&& last_created(events) == Some(artifact.id)
        &&& bytes_since_artifact(events) == artifact.received + match state.phase {
            Phase::Writing(count) => count as int,
            _ => 0,
        }
    })
    &&& state.pending matches Some(artifact) ==> last_created(events) == Some(artifact.id)
}

proof fn lemma_artifact_holds(
    run_id: u128,
    states: Seq<State>,
    events: Seq<Event>,
    actions: Seq<Action>,
)
    requires
        is_history(run_id, states, events, actions),
    ensures
        artifact_holds(states.last(), events),
    decreases events.len(),
{
    if events.len() > 0 {
        lemma_history_prefix(run_id, states, events, actions);
        lemma_artifact_holds(
            run_id,
            states.drop_last(),
            events.drop_last(),
            actions.drop_last(),
        );
        law_history_is_well_formed(
            run_id,
            states.drop_last(),
            events.drop_last(),
            actions.drop_last(),
        );
    }
}

/// An artifact is handed over as it was described: with the name, the kind of
/// content, the size, the step and the time of the last description that came,
/// the stream's run and the identifier that was drawn for it, and only when as
/// many bytes as declared have come since. Chunks are written as they came, to
/// that artifact's part file, and what is published or removed is that file.
pub proof fn law_artifact_is_handed_over_as_described(
    run_id: u128,
    states: Seq<State>,
    events: Seq<Event>,
    actions: Seq<Action>,
)
    requires
        is_history(run_id, states, events, actions),
        events.len() > 0,
    ensures
        actions.last() matches Action::Enqueue(staged) ==> {
            &&& last_artifact(events) matches Some(artifact)
            &&& staged.name@ == artifact.name@
            &&& staged.content_type@ == artifact.content_type@
            &&& staged.size_bytes == artifact.size_bytes
            &&& staged.step == artifact.step
            &&& staged.timestamp_nanos == artifact.timestamp_unix_ms * 1_000_000
            &&& staged.run_id == run_id
            &&& last_created(events) == Some(staged.id)
            &&& bytes_since_artifact(events) == artifact.size_bytes
            &&& artifact.name@.len() > 0
        },
        actions.last() matches Action::WriteChunk(id, data) ==> {
            &&& events.last() matches Event::Message(Some(Payload::ArtifactChunk(chunk)))
            &&& data@ == chunk@
            &&& last_created(events) == Some(id)
        },
        actions.last() matches Action::PublishPart(id) ==> last_created(events) == Some(id)
            && bytes_since_artifact(events) == (last_artifact(events)->0).size_bytes,
        actions.last() matches Action::RemovePart(id) ==> last_created(events) == Some(id),
{
    lemma_history_prefix(run_id, states, events, actions);
    lemma_artifact_holds(run_id, states, events, actions);
    lemma_artifact_holds(run_id, states.drop_last(), events.drop_last(), actions.drop_last());
    law_history_is_well_formed(run_id, states.drop_last(), events.drop_last(), actions.drop_last());
}

/// Why an event refuses an open stream: its status code and its message.
pub open spec fn reason(state: State, event: Event) -> Option<(Code, Seq<char>)> {
    let invalid = Code::InvalidArgument;
    match event {
        Event::Message(None) => Some((invalid, "metrics message has no payload"@)),
        Event::Message(Some(Payload::Metadata)) => Some(
            (invalid, "metrics stream metadata may only appear first"@),
        ),
        Event::Message(Some(Payload::Metric(metric))) => if metric.name@.len() == 0 {
            Some((invalid, "metric name cannot be empty"@))
        } else if metric.timestamp_unix_ms < -377_705_116_800_000 || metric.timestamp_unix_ms
            > 253_402_300_799_999 {
            Some((Code::Internal, "timestamp was not in range"@))
        } else {
            None
        },
        Event::Message(Some(Payload::ArrayMetric(metric))) => if metric.name@.len() == 0 {
            Some((invalid, "metric name cannot be empty"@))
        } else if metric.timestamp_unix_ms < -377_705_116_800_000 || metric.timestamp_unix_ms
            > 253_402_300_799_999 {
            Some((Code::Internal, "timestamp was not in range"@))
        } else {
            None
        },
        Event::Message(Some(Payload::Artifact(artifact))) => if state.pending is None
            && artifact.name@.len() == 0 {
            Some((invalid, "artifact name cannot be empty"@))
        } else {
            None
        },
        Event::Message(Some(Payload::ArtifactChunk(data))) => match state.pending {
            None => Some((invalid, "artifact chunk has no artifact metadata"@)),
            Some(artifact) => if artifact.received + data@.len() > artifact.metadata.size_bytes {
                Some((invalid, "artifact contains more bytes than declared"@))
            } else {
                None
            },
        },
        Event::End => if state.pending is Some {
            Some((invalid, "metrics stream ended before the artifact was complete"@))
        } else {
            None
        },
        Event::StreamFailed(status) => Some((status.code, status.message@)),
        Event::Failed(message) => Some((Code::Internal, message@)),
        Event::Done => match state.phase {
            Phase::Discarding(artifact) => if artifact.name@.len() == 0 {
                Some((invalid, "artifact name cannot be empty"@))
            } else {
                None
            },
            Phase::Publishing(artifact) => if artifact.metadata.timestamp_unix_ms
                < -377_705_116_800_000 || artifact.metadata.timestamp_unix_ms
                > 253_402_300_799_999 {
                Some((Code::Internal, "timestamp was not in range"@))
            } else {
                None
            },
            _ => None,
        },
        Event::Created(_) => None,
    }
}

/// The answer is settled: it is this error, given now or once the rows are in
/// and the part file is gone.
pub open spec fn settled(next: State, action: Action, code: Code, message: Seq<char>) -> bool {
    match next.phase {
        Phase::Closing(Some(status)) => status.code == code && status.message@ == message,
        Phase::CleaningUp(status) => status.code == code && status.message@ == message,
        Phase::Finished => action matches Action::Finish(Err(status)) && status.code == code
            && status.message@ == message,
        _ => false,
    }
}

proof fn lemma_settled(
    run_id: u128,
    states: Seq<State>,
    events: Seq<Event>,
    actions: Seq<Action>,
    n: int,
    m: int,
    code: Code,
    message: Seq<char>,
)
    requires
        is_history(run_id, states, events, actions),
        0 <= n <= m < events.len(),
        settled(states[n + 1], actions[n], code, message),
    ensures
        settled(states[m + 1], actions[m], code, message),
    decreases m - n,
{
    if m > n {
        lemma_settled(run_id, states, events, actions, n, m - 1, code, message);
        assert(expects(states[m], events[m]) && steps(
            states[m],
            events[m],
            states[m + 1],
            actions[m],
        ));
    }
}

/// What goes wrong is what is answered: an open stream in which a message has
/// no payload, repeats the metadata, has no name, names no instant, brings a
/// chunk without an artifact or too many bytes, or which ends too early, fails,
/// or cannot be carried out, is answered with exactly that error, whatever
/// comes after; and nothing else settles on an error.
pub proof fn law_answered_with_the_reason(
    run_id: u128,
    states: Seq<State>,
    events: Seq<Event>,
    actions: Seq<Action>,
    n: int,
    m: int,
)
    requires
        is_history(run_id, states, events, actions),
        0 <= n <= m < events.len(),
        is_open(states[n]),
    ensures
        reason(states[n], events[n]) matches Some((code, message)) ==> {
            &&& !is_open(states[m + 1])
            &&& actions[m] matches Action::Finish(answer) ==> (answer matches Err(status)
                && status.code == code && status.message@ == message)
        },
        reason(states[n], events[n]) is None ==> is_open(states[n + 1]) || (events[n] is End && (
        states[n + 1].phase == Phase::Closing(None) || actions[n] == Action::Finish(
            Ok(states[n].response),
        ))),
{
    assert(expects(states[n], events[n]) && steps(
        states[n],
        events[n],
        states[n + 1],
        actions[n],
    ));
    if let Some((code, message)) = reason(states[n], events[n]) {
        assert(settled(states[n + 1], actions[n], code, message));
        lemma_settled(run_id, states, events, actions, n, m, code, message);
        assert(expects(states[m], events[m]) && steps(
            states[m],
            events[m],
            states[m + 1],
            actions[m],
        ));
    }
}

/// One insert is a thousand rows.
pub proof fn law_insert_size()
    ensures
        ROWS_PER_INSERT == 1000,
        MIN_UNIX_SECONDS == -377_705_116_800,
        MAX_UNIX_SECONDS == 253_402_300_799,
{
}

/// How many part files were created.
pub open spec fn parts_created(events: Seq<Event>) -> nat
    decreases events.len(),
{
    if events.len() == 0 {
        0
    } else {
        parts_created(events.drop_last()) + if events.last() is Created { 1nat } else { 0nat }
    }
}

/// How many part files were given their final name or removed.
pub open spec fn parts_settled(actions: Seq<Action>) -> nat
    decreases actions.len(),
{
    if actions.len() == 0 {
        0
    } else {
        parts_settled(actions.drop_last()) + if actions.last() is PublishPart
            || actions.last() is RemovePart {
            1nat
        } else {
            0nat
        }
    }
}

/// No part file is forgotten: each that was created is given its final name or
/// removed, but for the one of an artifact that is still arriving; and when the
/// stream is answered there is none of these.
pub proof fn law_no_part_file_is_left(
    run_id: u128,
    states: Seq<State>,
    events: Seq<Event>,
    actions: Seq<Action>,
)
    requires
        is_history(run_id, states, events, actions),
    ensures
        parts_created(events) == parts_settled(actions) + if states.last().pending is Some {
            1nat
        } else {
            0nat
        },
        events.len() > 0 && actions.last() is Finish ==> parts_created(events) == parts_settled(
            actions,
        ),
    decreases events.len(),
{
    if events.len() > 0 {
        lemma_history_prefix(run_id, states, events, actions);
        law_no_part_file_is_left(
            run_id,
            states.drop_last(),
            events.drop_last(),
            actions.drop_last(),
        );
        law_history_is_well_formed(
            run_id,
            states.drop_last(),
            events.drop_last(),
            actions.drop_last(),
        );
        law_history_is_well_formed(run_id, states, events, actions);
    }
}

/// A closing stream goes in this order: the scalar rows first, then the array
/// rows, then the part file of an artifact that will not be completed, and then
/// the answer. A stream that closes well but cannot store its rows is answered
/// with that failure.
pub proof fn law_closing_order(state: State, event: Event, next: State, action: Action)
    requires
        state_wf(state),
        expects(state, event),
        steps(state, event, next, action),
    ensures
        action is InsertArrays && next.phase is Closing ==> state.scalars.len() == 0,
        action is RemovePart && next.phase is CleaningUp ==> state.scalars.len() == 0
            && state.arrays.len() == 0,
        action is Finish ==> state.scalars.len() == 0 && state.arrays.len() == 0,
        state.phase == Phase::Closing(None) ==> (event matches Event::Failed(message) ==> settled(
            next,
            action,
            Code::Internal,
            message@,
        )),
        state.phase == Phase::Closing(None) && event is Done && state.scalars.len() == 0
            && state.arrays.len() == 0 ==> action == Action::Finish(Ok(state.response)),
        state.phase is CleaningUp ==> action is Finish,
        state.phase is Closing && state.scalars.len() > 0 ==> (action matches Action::InsertScalars(
            rows,
        ) && rows@ == state.scalars && next.scalars.len() == 0),
        state.phase is Closing && state.scalars.len() == 0 && state.arrays.len() > 0 ==> (
        action matches Action::InsertArrays(rows) && rows@ == state.arrays && next.arrays.len()
            == 0),
        state.phase is Closing && state.scalars.len() == 0 && state.arrays.len() == 0 ==> (
        match state.pending {
            Some(artifact) => action == Action::RemovePart(artifact.id),
            None => action is Finish,
        }),
{
}

/// What is awaited is what was asked for.
pub proof fn law_awaits_what_it_asked_for(state: State, event: Event, next: State, action: Action)
    requires
        state_wf(state),
        expects(state, event),
        steps(state, event, next, action),
    ensures
        match next.phase {
            Phase::Receiving => action is Receive,
            Phase::StoringScalars => action is InsertScalars,
            Phase::StoringArrays => action is InsertArrays,
            Phase::Discarding(_) => action is RemovePart,
            Phase::Creating(_) => action is CreatePart,
            Phase::Writing(_) => action is WriteChunk,
            Phase::Publishing(_) => action is PublishPart,
            Phase::Enqueuing => action is Enqueue,
            Phase::Closing(_) => action is InsertScalars || action is InsertArrays,
            Phase::CleaningUp(_) => action is RemovePart,
            Phase::Finished => action is Finish,
        },
{
}

/// Every event of an open stream that is no reason to refuse it has its answer:
/// a metric is buffered, or inserted with the others that are; a description
/// gives up the artifact that is still arriving and then has a part file
/// created; bytes are written, and when the last declared byte is there the
/// artifact is published and then handed over; and after anything that is done
/// the next message is awaited.
pub proof fn law_every_event_has_its_answer(
    state: State,
    event: Event,
    next: State,
    action: Action,
)
    requires
        state_wf(state),
        expects(state, event),
        steps(state, event, next, action),
        is_open(state),
        reason(state, event) is None,
    ensures
        event matches Event::Message(Some(Payload::Metric(_))) ==> if state.scalars.len() + 1
            == 1000 {
            action is InsertScalars && next.scalars.len() == 0
        } else {
            action is Receive && next.scalars.len() == state.scalars.len() + 1
        },
        event matches Event::Message(Some(Payload::ArrayMetric(_))) ==> if state.arrays.len() + 1
            == 1000 {
            action is InsertArrays && next.arrays.len() == 0
        } else {
            action is Receive && next.arrays.len() == state.arrays.len() + 1
        },
        event matches Event::Message(Some(Payload::Artifact(_))) ==> match state.pending {
            Some(previous) => action == Action::RemovePart(previous.id) && next.pending is None,
            None => action is CreatePart,
        },
        event matches Event::Message(Some(Payload::ArtifactChunk(_))) ==> action is WriteChunk
            && next.pending == state.pending,
        event matches Event::Created(id) ==> (state.phase matches Phase::Creating(artifact)
            && if artifact.size_bytes == 0 {
            action == Action::PublishPart(id)
        } else {
            action is Receive && next.pending == Some(
                PendingArtifact { id, metadata: artifact, received: 0 },
            )
        }),
        event is Done ==> match state.phase {
            Phase::Discarding(_) => action is CreatePart,
            Phase::Writing(count) => if (state.pending->0).received + count == (
            state.pending->0).metadata.size_bytes {
                action == Action::PublishPart((state.pending->0).id)
            } else {
                action is Receive && next.pending is Some && (next.pending->0).received == (
                state.pending->0).received + count
            },
            Phase::Publishing(_) => action is Enqueue,
            _ => action is Receive,
        },
{
}

} // verus!
