//! What the server answers to remote calls.
use crate::hashing::{content_hash, hashed, new_hasher, sha256, update_hasher, ContentHasher};
use crate::ids::{id_of_text, id_text_spec, parse_run_id, run_id_text};
use crate::run::RunInitialization;
use crate::status::{Code, Status};
use crate::text::hex_spec;
use vstd::prelude::*;

verus! {

/// Bytes per chunk of an asset that is served.
pub const ASSET_CHUNK_BYTES: usize = 2_097_152;

/// The answer to the start of a run.
pub struct InitResponse {
    pub run_id: String,
    pub train_config: String,
    pub assets: Vec<String>,
}

/// The run that a call wants to start: none while the server shuts down.
pub fn init_request(shutting_down: bool, run_id: &str) -> (id: Result<u128, Status>)
    ensures
        match id {
            Ok(id) => !shutting_down && id_of_text(run_id@) == Some(id as nat),
            Err(status) => if shutting_down {
                status.says(
                    Code::Unavailable,
                    "server is shutting down; new runs are not accepted"@,
                )
            } else {
                id_of_text(run_id@) is None && status.says(
                    Code::InvalidArgument,
                    "invalid run ID"@,
                )
            },
        },
{
    if shutting_down {
        return Err(
            Status::unavailable("server is shutting down; new runs are not accepted"),
        );
    }
    parse_run_id(run_id)
}

/// The answer to the start of a run: how it went, or why it did not.
pub fn init_response(
    id: u128,
    started: Result<RunInitialization, String>,
) -> (response: Result<InitResponse, Status>)
    ensures
        match started {
            Ok(initialization) => {
                &&& response matches Ok(reply)
                &&& reply.run_id@ == id_text_spec(id)
                &&& reply.train_config == initialization.train_config
                &&& reply.assets == initialization.assets
            },
            Err(message) => response == Err::<InitResponse, Status>(
                (Status { code: Code::Internal, message }),
            ),
        },
{
    match started {
        Ok(initialization) => Ok(
            InitResponse {
                run_id: run_id_text(id),
                train_config: initialization.train_config,
                assets: initialization.assets,
            },
        ),
        Err(message) => Err(Status::internal(message)),
    }
}

/// Work that failed on this side is answered with what it says.
pub fn internal_failure<T>(result: Result<T, String>) -> (answer: Result<T, Status>)
    ensures
        match result {
            Ok(value) => answer == Ok::<T, Status>(value),
            Err(message) => answer == Err::<T, Status>((Status { code: Code::Internal, message })),
        },
{
    match result {
        Ok(value) => Ok(value),
        Err(message) => Err(Status::internal(message)),
    }
}

/// The first message of a stream.
pub enum First {
    /// The stream's description, with the run it is for.
    Metadata { run_id: String, step: u64 },
    /// Anything else, or nothing.
    Other,
}

/// The run and the step of a checkpoint, which its first message gives.
pub fn checkpoint_opening(first: First) -> (opened: Result<(u128, u64), Status>)
    ensures
        match first {
            First::Metadata { run_id, step } => match opened {
                Ok((id, at)) => id_of_text(run_id@) == Some(id as nat) && at == step,
                Err(status) => id_of_text(run_id@) is None && status.says(
                    Code::InvalidArgument,
                    "invalid run ID"@,
                ),
            },
            First::Other => opened matches Err(status) && status.says(
                Code::InvalidArgument,
                "first checkpoint message must be metadata"@,
            ),
        },
{
    match first {
        First::Metadata { run_id, step } => match parse_run_id(run_id.as_str()) {
            Ok(id) => Ok((id, step)),
            Err(status) => Err(status),
        },
        First::Other => Err(
            Status::invalid_argument("first checkpoint message must be metadata"),
        ),
    }
}

/// The run of a metrics stream, which its first message gives.
pub fn metrics_opening(first: First) -> (opened: Result<u128, Status>)
    ensures
        match first {
            First::Metadata { run_id, .. } => match opened {
                Ok(id) => id_of_text(run_id@) == Some(id as nat),
                Err(status) => id_of_text(run_id@) is None && status.says(
                    Code::InvalidArgument,
                    "invalid run ID"@,
                ),
            },
            First::Other => opened matches Err(status) && status.says(
                Code::InvalidArgument,
                "first metrics message must be stream metadata"@,
            ),
        },
{
    match first {
        First::Metadata { run_id, .. } => parse_run_id(run_id.as_str()),
        First::Other => Err(
            Status::invalid_argument("first metrics message must be stream metadata"),
        ),
    }
}

/// Metrics are taken for runs that are active.
pub fn metrics_admission(running: bool) -> (result: Result<(), Status>)
    ensures
        match result {
            Ok(()) => running,
            Err(status) => !running && status.says(Code::NotFound, "unknown run"@),
        },
{
    if running {
        Ok(())
    } else {
        Err(Status::not_found("unknown run"))
    }
}

/// What happens to a checkpoint that arrives.
pub enum CheckpointEvent {
    /// A chunk came.
    Chunk(Vec<u8>),
    /// Something else came.
    Unexpected,
    /// The stream closed.
    End,
    /// The last action was carried out.
    Done,
    /// The stream or the last action failed.
    Failed(String),
}

/// What to do next with a checkpoint.
pub enum CheckpointAction {
    /// Create the part file.
    Create,
    /// Wait for the next message.
    Receive,
    /// Append bytes to the part file.
    Write(Vec<u8>),
    /// Sync the part file and give it its final name.
    Publish,
    /// The checkpoint is staged: its size and its hash.
    Staged { bytes: u64, content_hash: String },
    /// The checkpoint is refused.
    Fail(String),
}

#[derive(Clone, Copy, Debug, PartialEq, Eq, Structural)]
pub enum CheckpointStage {
    Creating,
    Receiving,
    Writing,
    Publishing,
    Over,
}

/// A checkpoint that arrives.
pub struct CheckpointReceiver {
    stage: CheckpointStage,
    bytes: u64,
    hasher: Option<ContentHasher>,
}

/// How far a checkpoint has come, and what of it has been taken.
pub struct Arriving {
    pub stage: CheckpointStage,
    pub bytes: u64,
    pub taken: Seq<u8>,
}

impl View for CheckpointReceiver {
    type V = Arriving;

    closed spec fn view(&self) -> Arriving {
        Arriving {
            stage: self.stage,
            bytes: self.bytes,
            taken: match self.hasher {
                Some(hasher) => hashed(hasher),
                None => Seq::empty(),
            },
        }
    }
}

/// An event makes sense at a stage.
pub open spec fn checkpoint_expects(stage: CheckpointStage, event: CheckpointEvent) -> bool {
    match stage {
        CheckpointStage::Receiving => event is Chunk || event is Unexpected || event is End
            || event is Failed,
        CheckpointStage::Over => false,
        _ => event is Done || event is Failed,
    }
}

/// One step of a checkpoint that arrives.
pub open spec fn checkpoint_steps(
    state: Arriving,
    event: CheckpointEvent,
    next: Arriving,
    action: CheckpointAction,
) -> bool {
    match (state.stage, event) {
        (_, CheckpointEvent::Failed(error)) => next.stage == CheckpointStage::Over && action
            == CheckpointAction::Fail(error),
        (CheckpointStage::Receiving, CheckpointEvent::Chunk(data)) => {
            &&& next == Arriving {
                stage: CheckpointStage::Writing,
                bytes: ((state.bytes + data@.len()) % 0x1_0000_0000_0000_0000) as u64,
                taken: state.taken + data@,
            }
            &&& action == CheckpointAction::Write(data)
        },
        (CheckpointStage::Receiving, CheckpointEvent::End) => {
            &&& next == Arriving { stage: CheckpointStage::Publishing, ..state }
            &&& action == CheckpointAction::Publish
        },
        (CheckpointStage::Receiving, _) => next.stage == CheckpointStage::Over && (
        action matches CheckpointAction::Fail(message) && message@
            == "expected checkpoint chunks after the metadata"@),
        (CheckpointStage::Publishing, _) => {
            &&& next.stage == CheckpointStage::Over
            &&& action matches CheckpointAction::Staged { bytes, content_hash }
            &&& bytes == state.bytes
            &&& content_hash@ == hex_spec(sha256(state.taken))
        },
        _ => {
            &&& next == Arriving { stage: CheckpointStage::Receiving, ..state }
            &&& action == CheckpointAction::Receive
        },
    }
}

impl CheckpointReceiver {
    /// What has arrived is being hashed until the end.
    pub closed spec fn wf(self) -> bool {
        self.stage != CheckpointStage::Over ==> self.hasher is Some
    }

    /// A checkpoint begins, with its first step.
    pub fn new() -> (started: (CheckpointReceiver, CheckpointAction))
        ensures
            started.0.wf(),
            started.0@ == (Arriving {
                stage: CheckpointStage::Creating,
                bytes: 0,
                taken: Seq::empty(),
            }),
            started.1 == CheckpointAction::Create,
    {
        (
            CheckpointReceiver {
                stage: CheckpointStage::Creating,
                bytes: 0,
                hasher: Some(new_hasher()),
            },
            CheckpointAction::Create,
        )
    }

    /// One step: takes what happened and says what to do next.
    pub fn step(&mut self, event: CheckpointEvent) -> (action: CheckpointAction)
        requires
            old(self).wf(),
            checkpoint_expects(old(self)@.stage, event),
        ensures
            final(self).wf(),
            checkpoint_steps(old(self)@, event, final(self)@, action),
    {
        match (self.stage, event) {
            (_, CheckpointEvent::Failed(error)) => {
                self.stage = CheckpointStage::Over;
                CheckpointAction::Fail(error)
            },
            (CheckpointStage::Receiving, CheckpointEvent::Chunk(data)) => {
                let mut hasher = match self.hasher.take() {
                    Some(hasher) => hasher,
                    None => new_hasher(),
                };
                update_hasher(&mut hasher, data.as_slice());
                self.hasher = Some(hasher);
                self.bytes = self.bytes.wrapping_add(data.len() as u64);
                self.stage = CheckpointStage::Writing;
                CheckpointAction::Write(data)
            },
            (CheckpointStage::Receiving, CheckpointEvent::End) => {
                self.stage = CheckpointStage::Publishing;
                CheckpointAction::Publish
            },
            (CheckpointStage::Receiving, _) => {
                self.stage = CheckpointStage::Over;
                CheckpointAction::Fail(
                    "expected checkpoint chunks after the metadata".to_owned(),
                )
            },
            (CheckpointStage::Publishing, _) => {
                let hasher = match self.hasher.take() {
                    Some(hasher) => hasher,
                    None => new_hasher(),
                };
                self.stage = CheckpointStage::Over;
                CheckpointAction::Staged { bytes: self.bytes, content_hash: content_hash(hasher) }
            },
            _ => {
                self.stage = CheckpointStage::Receiving;
                CheckpointAction::Receive
            },
        }
    }
}

/// A checkpoint's history.
pub open spec fn checkpoint_history(
    states: Seq<Arriving>,
    events: Seq<CheckpointEvent>,
    actions: Seq<CheckpointAction>,
) -> bool {
    &&& states.len() == events.len() + 1
    &&& actions.len() == events.len()
    &&& states[0] == Arriving {
        stage: CheckpointStage::Creating,
        bytes: 0,
        taken: Seq::empty(),
    }
    &&& forall|i: int|
        #![trigger events[i]]
        0 <= i < events.len() ==> checkpoint_expects(states[i].stage, events[i])
            && checkpoint_steps(states[i], events[i], states[i + 1], actions[i])
}

/// The bytes that were written, in order.
pub open spec fn checkpoint_written(actions: Seq<CheckpointAction>) -> Seq<u8>
    decreases actions.len(),
{
    if actions.len() == 0 {
        Seq::empty()
    } else {
        match actions.last() {
            CheckpointAction::Write(data) => checkpoint_written(actions.drop_last()) + data@,
            _ => checkpoint_written(actions.drop_last()),
        }
    }
}

/// A staged checkpoint is recorded with the size and the hash of exactly the
/// bytes that were written.
pub proof fn law_staged_with_its_hash(
    states: Seq<Arriving>,
    events: Seq<CheckpointEvent>,
    actions: Seq<CheckpointAction>,
)
    requires
        checkpoint_history(states, events, actions),
    ensures
        states.last().stage != CheckpointStage::Over ==> {
            &&& states.last().taken == checkpoint_written(actions)
            &&& states.last().bytes == (checkpoint_written(actions).len()
                % 0x1_0000_0000_0000_0000) as u64
        },
        events.len() > 0 ==> (actions.last() matches CheckpointAction::Staged {
            bytes,
            content_hash,
        } ==> {
            &&& bytes == (checkpoint_written(actions).len() % 0x1_0000_0000_0000_0000) as u64
            &&& content_hash@ == hex_spec(sha256(checkpoint_written(actions)))
        }),
    decreases events.len(),
{
    if events.len() > 0 {
        let n = events.len() - 1;
        assert(events[n] == events.last());
        assert forall|i: int|
            #![trigger events.drop_last()[i]]
            0 <= i < n implies checkpoint_expects(
            states.drop_last()[i].stage,
            events.drop_last()[i],
        ) && checkpoint_steps(
            states.drop_last()[i],
            events.drop_last()[i],
            states.drop_last()[i + 1],
            actions.drop_last()[i],
        ) by {
            assert(events[i] == events.drop_last()[i]);
        }
        law_staged_with_its_hash(states.drop_last(), events.drop_last(), actions.drop_last());
        assert(states.drop_last().last() == states[n]);
        if let CheckpointEvent::Chunk(data) = events.last() {
            let before = checkpoint_written(actions.drop_last());
            assert((before.len() % 0x1_0000_0000_0000_0000 + data@.len())
                % 0x1_0000_0000_0000_0000 == (before.len() + data@.len())
                % 0x1_0000_0000_0000_0000) by (nonlinear_arith);
        }
    }
}

/// What happens to an asset that is served.
pub enum AssetEvent {
    /// The file was opened.
    Opened,
    /// A read gave these bytes.
    Read(Vec<u8>),
    /// The file could not be opened or read.
    Failed(String),
}

/// What is done next with an asset that is served.
pub enum AssetAction {
    /// Read the next bytes.
    Read,
    /// Send these bytes, then read on.
    SendChunk(Vec<u8>),
    /// Send this error and end the stream.
    SendError(Status),
    /// End the stream.
    End,
}

/// An asset that is served: its description goes first, then its bytes as they
/// are read; an error ends it.
pub fn serve_asset(event: AssetEvent) -> (action: AssetAction)
    ensures
        action == match event {
            AssetEvent::Opened => AssetAction::Read,
            AssetEvent::Read(bytes) => if bytes@.len() == 0 {
                AssetAction::End
            } else {
                AssetAction::SendChunk(bytes)
            },
            AssetEvent::Failed(message) => AssetAction::SendError(
                (Status { code: Code::Internal, message }),
            ),
        },
{
    match event {
        AssetEvent::Opened => AssetAction::Read,
        AssetEvent::Read(bytes) => if bytes.len() == 0 {
            AssetAction::End
        } else {
            AssetAction::SendChunk(bytes)
        },
        AssetEvent::Failed(message) => AssetAction::SendError(Status::internal(message)),
    }
}

/// The run and the split that a request for data asks for. A split that is not
/// known counts as training.
pub fn data_request(run_id: &str, split: i32) -> (asked: Result<(u128, bool), Status>)
    ensures
        match asked {
            Ok((id, validation)) => id_of_text(run_id@) == Some(id as nat) && validation == (split
                == crate::pipeline::Split::Validation.number()) && (validation <==> split == 1),
            Err(status) => id_of_text(run_id@) is None && status.says(
                Code::InvalidArgument,
                "invalid run ID"@,
            ),
        },
{
    match parse_run_id(run_id) {
        Ok(id) => Ok((id, split == crate::pipeline::Split::Validation.code())),
        Err(status) => Err(status),
    }
}

/// What a data stream does with the batch it asked for.
#[derive(Clone, Copy, Debug, PartialEq, Eq, Structural)]
pub enum DataStep {
    /// Send it and wait for the next request.
    Send,
    /// There are no more: end the stream.
    End,
}

/// A batch is sent; where there is none the stream ends.
pub fn data_step(present: bool) -> (step: DataStep)
    ensures
        step == if present { DataStep::Send } else { DataStep::End },
{
    if present { DataStep::Send } else { DataStep::End }
}

/// The bytes that came, in order.
pub open spec fn checkpoint_received(events: Seq<CheckpointEvent>) -> Seq<u8>
    decreases events.len(),
{
    if events.len() == 0 {
        Seq::empty()
    } else {
        match events.last() {
            CheckpointEvent::Chunk(data) => checkpoint_received(events.drop_last()) + data@,
            _ => checkpoint_received(events.drop_last()),
        }
    }
}

proof fn lemma_written_as_received(
    states: Seq<Arriving>,
    events: Seq<CheckpointEvent>,
    actions: Seq<CheckpointAction>,
)
    requires
        checkpoint_history(states, events, actions),
    ensures
        checkpoint_written(actions) == checkpoint_received(events),
    decreases events.len(),
{
    if events.len() > 0 {
        let n = events.len() - 1;
        assert(events[n] == events.last());
        assert forall|i: int|
            #![trigger events.drop_last()[i]]
            0 <= i < n implies checkpoint_expects(
            states.drop_last()[i].stage,
            events.drop_last()[i],
        ) && checkpoint_steps(
            states.drop_last()[i],
            events.drop_last()[i],
            states.drop_last()[i + 1],
            actions.drop_last()[i],
        ) by {
            assert(events[i] == events.drop_last()[i]);
        }
        lemma_written_as_received(states.drop_last(), events.drop_last(), actions.drop_last());
    }
}

/// A checkpoint is staged as it came: what is written is what the chunks
/// brought, in order, and it is recorded with the number of those bytes and the
/// hexadecimal digits of their SHA-256 digest, only after the stream has ended.
/// Anything but a chunk is refused, and a failure is told as it is.
pub proof fn law_checkpoint_is_staged_as_it_came(
    states: Seq<Arriving>,
    events: Seq<CheckpointEvent>,
    actions: Seq<CheckpointAction>,
)
    requires
        checkpoint_history(states, events, actions),
        events.len() > 0,
    ensures
        checkpoint_written(actions) == checkpoint_received(events),
        actions.last() matches CheckpointAction::Staged { bytes, content_hash } ==> {
            &&& checkpoint_received(events).len() <= u64::MAX ==> bytes == checkpoint_received(
                events,
            ).len()
            &&& content_hash@ == hex_spec(sha256(checkpoint_received(events)))
            &&& events.len() > 1 && events[events.len() - 2] is End && events.last() is Done
        },
        events.last() matches CheckpointEvent::Chunk(data) ==> actions.last()
            == CheckpointAction::Write(data),
        events.last() is End ==> actions.last() is Publish,
        events.last() is Unexpected ==> (actions.last() matches CheckpointAction::Fail(message)
            && message@ == "expected checkpoint chunks after the metadata"@),
        events.last() matches CheckpointEvent::Failed(error) ==> actions.last()
            == CheckpointAction::Fail(error),
        events.last() is Done ==> if events.len() > 1 && actions[events.len() - 2] is Publish {
            actions.last() is Staged
        } else {
            actions.last() is Receive
        },
{
    let n = events.len() - 1;
    assert(events[n] == events.last());
    assert(checkpoint_expects(states[n].stage, events[n]) && checkpoint_steps(
        states[n],
        events[n],
        states[n + 1],
        actions[n],
    ));
    lemma_written_as_received(states, events, actions);
    law_staged_with_its_hash(states, events, actions);
    if n > 0 {
        assert(checkpoint_expects(states[n - 1].stage, events[n - 1]) && checkpoint_steps(
            states[n - 1],
            events[n - 1],
            states[n],
            actions[n - 1],
        ));
    }
}

} // verus!
