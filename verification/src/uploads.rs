//! Where uploads are staged and stored, and the records that describe them.
use crate::ids::{id_text, id_text_spec, law_id_text_injective, lemma_simple_text_len};
use crate::text::{chars_of, concat2, concat3, join_path, joined, string_of, zero_padded, zero_padded_spec};
use vstd::prelude::*;
use vstd::string::*;

verus! {

/// Bytes per part of a stored object.
pub const PART_BYTES: u64 = 67_108_864;

/// The media type under which every object is stored.
pub const OBJECT_CONTENT_TYPE: &'static str = "application/x-tar";

/// A stored checkpoint, as its record describes it.
pub struct CheckpointRecord {
    pub id: u128,
    pub updated_at_micros: i64,
    pub kind: i8,
    pub name: String,
    pub step: u64,
    pub path: String,
    pub size: u64,
    pub content_hash: String,
    pub asset_type: String,
    pub metadata: String,
    pub run_id: u128,
    pub ancestor_asset_id: u128,
    pub deleted: bool,
}

/// A stored artifact, as its record describes it.
pub struct ArtifactRecord {
    pub id: u128,
    pub run_id: u128,
    pub step: u64,
    pub timestamp_nanos: i128,
    pub name: String,
    pub path: String,
    pub content_type: String,
    pub size_bytes: u64,
}

/// What an upload does next.
#[derive(Clone, Copy, Debug, PartialEq, Eq, Structural)]
pub enum UploadStep {
    StoreObject,
    InsertRecord,
    RemoveStaged,
    Complete,
    GiveUp,
}

/// The characters left of the leading slashes of `text`.
pub open spec fn without_leading_slashes(text: Seq<char>) -> Seq<char>
    decreases text.len(),
{
    if text.len() > 0 && text[0] == '/' {
        without_leading_slashes(text.drop_first())
    } else {
        text
    }
}

/// The characters left of the trailing slashes of `text`.
pub open spec fn without_trailing_slashes(text: Seq<char>) -> Seq<char>
    decreases text.len(),
{
    if text.len() > 0 && text.last() == '/' {
        without_trailing_slashes(text.drop_last())
    } else {
        text
    }
}

/// `text` without the slashes at either end.
pub open spec fn without_outer_slashes(text: Seq<char>) -> Seq<char> {
    without_trailing_slashes(without_leading_slashes(text))
}

/// `text` without the slashes at either end.
pub fn trim_slashes(text: &str) -> (trimmed: String)
    ensures
        trimmed@ == without_outer_slashes(text@),
{
    let chars = chars_of(text);
    let mut from: usize = 0;
    assert(chars@.skip(0) =~= chars@);
    while from < chars.len() && chars[from] == '/'
        invariant
            from <= chars@.len(),
            without_leading_slashes(chars@.skip(from as int)) == without_leading_slashes(chars@),
        decreases chars@.len() - from,
    {
        assert(chars@.skip(from as int).drop_first() =~= chars@.skip(from + 1));
        from = from + 1;
    }
    let mut to: usize = chars.len();
    assert(chars@.subrange(from as int, to as int) =~= chars@.skip(from as int));
    while to > from && chars[to - 1] == '/'
        invariant
            from <= to <= chars@.len(),
            without_trailing_slashes(chars@.subrange(from as int, to as int))
                == without_outer_slashes(chars@),
        decreases to,
    {
        assert(chars@.subrange(from as int, to as int).drop_last() =~= chars@.subrange(
            from as int,
            to - 1,
        ));
        to = to - 1;
    }
    string_of(chars.as_slice(), from, to)
}

proof fn lemma_trimmed(text: Seq<char>)
    ensures
        without_outer_slashes(text).len() > 0 ==> without_outer_slashes(text)[0] != '/'
            && without_outer_slashes(text).last() != '/',
{
    lemma_leading(text);
    lemma_trailing(without_leading_slashes(text));
}

proof fn lemma_leading(text: Seq<char>)
    ensures
        without_leading_slashes(text).len() > 0 ==> without_leading_slashes(text)[0] != '/',
    decreases text.len(),
{
    if text.len() > 0 && text[0] == '/' {
        lemma_leading(text.drop_first());
    }
}

proof fn lemma_trailing(text: Seq<char>)
    requires
        text.len() > 0 ==> text[0] != '/',
    ensures
        without_trailing_slashes(text).len() > 0 ==> without_trailing_slashes(text)[0] != '/'
            && without_trailing_slashes(text).last() != '/',
    decreases text.len(),
{
    if text.len() > 0 && text.last() == '/' {
        assert(text.drop_last().len() > 0 ==> text.drop_last()[0] == text[0]);
        lemma_trailing(text.drop_last());
    }
}

/// Object keys and staging paths.
pub struct UploadStore {
    pub bucket: String,
    pub checkpoint_prefix: String,
    pub metrics_prefix: String,
    pub staging_dir: String,
}

/// The key of an object under a prefix.
pub open spec fn object_key(prefix: Seq<char>, id: u128) -> Seq<char> {
    prefix + seq!['/'] + id_text_spec(id)
}

/// The name of a checkpoint: its run and its step in nine digits.
pub open spec fn checkpoint_name(run_id: u128, step: u64) -> Seq<char> {
    id_text_spec(run_id) + seq!['_'] + zero_padded_spec(step as nat, 9)
}

impl UploadStore {
    /// The prefixes are not empty and neither begin nor end with a slash.
    pub open spec fn wf(self) -> bool {
        &&& self.checkpoint_prefix@.len() > 0
        &&& self.checkpoint_prefix@[0] != '/'
        &&& self.checkpoint_prefix@.last() != '/'
        &&& self.metrics_prefix@.len() > 0
        &&& self.metrics_prefix@[0] != '/'
        &&& self.metrics_prefix@.last() != '/'
    }

    /// A store; slashes around the prefixes do not count, and an empty prefix
    /// is refused.
    pub fn new(
        bucket: &str,
        checkpoint_prefix: &str,
        metrics_prefix: &str,
        staging_dir: &str,
    ) -> (store: Result<UploadStore, String>)
        ensures
            match store {
                Ok(store) => {
                    &&& store.wf()
                    &&& store.bucket@ == bucket@
                    &&& store.checkpoint_prefix@ == without_outer_slashes(checkpoint_prefix@)
                    &&& store.metrics_prefix@ == without_outer_slashes(metrics_prefix@)
                    &&& store.staging_dir@ == staging_dir@
                },
                Err(message) => if without_outer_slashes(checkpoint_prefix@).len() == 0 {
                    message@ == "checkpoint prefix is empty"@
                } else {
                    without_outer_slashes(metrics_prefix@).len() == 0 && message@
                        == "metrics prefix is empty"@
                },
            },
    {
        let checkpoint_prefix_trimmed = trim_slashes(checkpoint_prefix);
        let metrics_prefix_trimmed = trim_slashes(metrics_prefix);
        if checkpoint_prefix_trimmed.as_str().unicode_len() == 0 {
            return Err("checkpoint prefix is empty".to_owned());
        }
        if metrics_prefix_trimmed.as_str().unicode_len() == 0 {
            return Err("metrics prefix is empty".to_owned());
        }
        proof {
            lemma_trimmed(checkpoint_prefix@);
            lemma_trimmed(metrics_prefix@);
        }
        Ok(
            UploadStore {
                bucket: bucket.to_owned(),
                checkpoint_prefix: checkpoint_prefix_trimmed,
                metrics_prefix: metrics_prefix_trimmed,
                staging_dir: staging_dir.to_owned(),
            },
        )
    }

    /// Where a complete upload waits.
    pub fn staging_path(&self, id: u128) -> (path: String)
        ensures
            path@ == joined(self.staging_dir@, id_text_spec(id)),
    {
        let name = id_text(id);
        join_path(self.staging_dir.as_str(), name.as_str())
    }

    /// Where an upload that is still arriving is written.
    pub fn part_path(&self, id: u128) -> (path: String)
        ensures
            path@ == joined(self.staging_dir@, id_text_spec(id)) + ".part"@,
    {
        let path = self.staging_path(id);
        concat2(path.as_str(), ".part")
    }

    /// The key of a checkpoint.
    pub fn checkpoint_key(&self, id: u128) -> (key: String)
        ensures
            key@ == object_key(self.checkpoint_prefix@, id),
    {
        let text = id_text(id);
        let slash = "/";
        proof {
            reveal_strlit("/");
            assert(slash@ =~= seq!['/']);
        }
        concat3(self.checkpoint_prefix.as_str(), slash, text.as_str())
    }

    /// The key of an artifact.
    pub fn artifact_key(&self, id: u128) -> (key: String)
        ensures
            key@ == object_key(self.metrics_prefix@, id),
    {
        let text = id_text(id);
        let slash = "/";
        proof {
            reveal_strlit("/");
            assert(slash@ =~= seq!['/']);
        }
        concat3(self.metrics_prefix.as_str(), slash, text.as_str())
    }

    /// The record of a checkpoint.
    pub fn checkpoint(
        &self,
        id: u128,
        run_id: u128,
        step: u64,
        size: u64,
        content_hash: String,
        asset_type: String,
        now_micros: i64,
    ) -> (record: CheckpointRecord)
        ensures
            record.id == id,
            record.updated_at_micros == now_micros,
            record.kind == 1,
            record.name@ == checkpoint_name(run_id, step),
            record.step == step,
            record.path@ == object_key(self.checkpoint_prefix@, id),
            record.size == size,
            record.content_hash@ == content_hash@,
            record.asset_type@ == asset_type@,
            record.metadata@ == "{}"@,
            record.run_id == run_id,
            record.ancestor_asset_id == 0,
            !record.deleted,
    {
        let run = id_text(run_id);
        let number = zero_padded(step, 9);
        let underscore = "_";
        proof {
            reveal_strlit("_");
            assert(underscore@ =~= seq!['_']);
        }
        CheckpointRecord {
            id,
            updated_at_micros: now_micros,
            kind: 1,
            name: concat3(run.as_str(), underscore, number.as_str()),
            step,
            path: self.checkpoint_key(id),
            size,
            content_hash,
            asset_type,
            metadata: "{}".to_owned(),
            run_id,
            ancestor_asset_id: 0,
            deleted: false,
        }
    }

    /// The record of an artifact.
    pub fn artifact(
        &self,
        id: u128,
        run_id: u128,
        step: u64,
        timestamp_nanos: i128,
        name: String,
        content_type: String,
        size: u64,
    ) -> (record: ArtifactRecord)
        ensures
            record.id == id,
            record.run_id == run_id,
            record.step == step,
            record.timestamp_nanos == timestamp_nanos,
            record.name@ == name@,
            record.path@ == object_key(self.metrics_prefix@, id),
            record.content_type@ == content_type@,
            record.size_bytes == size,
    {
        ArtifactRecord {
            id,
            run_id,
            step,
            timestamp_nanos,
            name,
            path: self.artifact_key(id),
            content_type,
            size_bytes: size,
        }
    }

    /// The message of an upload whose staged file cannot be opened.
    pub fn open_failure(&self, id: u128) -> (message: String)
        ensures
            message@ == "opening staged upload "@ + joined(self.staging_dir@, id_text_spec(id)),
    {
        let path = self.staging_path(id);
        concat2("opening staged upload ", path.as_str())
    }

    /// The message of an upload that the object store refused.
    pub fn upload_failure(&self, id: u128, key: &str) -> (message: String)
        ensures
            message@ == "uploading "@ + joined(self.staging_dir@, id_text_spec(id)) + " to s3://"@
                + self.bucket@ + "/"@ + key@,
    {
        let path = self.staging_path(id);
        let mut message = concat3("uploading ", path.as_str(), " to s3://");
        message.append(self.bucket.as_str());
        message.append("/");
        message.append(key);
        message
    }
}

/// The archive of a checkpoint that is kept on disk: its run's directory and
/// its step in nine digits.
pub open spec fn archive_path_spec(root: Seq<char>, run_id: u128, step: u64) -> Seq<char> {
    joined(
        joined(root, id_text_spec(run_id)),
        "step_"@ + zero_padded_spec(step as nat, 9) + ".tar"@,
    )
}

/// Where the archive of a checkpoint is kept on disk, and where it is written
/// while it arrives.
pub fn archive_paths(root: &str, run_id: u128, step: u64) -> (paths: (String, String))
    ensures
        paths.0@ == archive_path_spec(root@, run_id, step),
        paths.1@ == joined(
            joined(root@, id_text_spec(run_id)),
            "step_"@ + zero_padded_spec(step as nat, 9) + ".tar"@ + ".part"@,
        ),
{
    let dir = join_path(root, id_text(run_id).as_str());
    let name = concat3("step_", zero_padded(step, 9).as_str(), ".tar");
    let part = concat2(name.as_str(), ".part");
    (join_path(dir.as_str(), name.as_str()), join_path(dir.as_str(), part.as_str()))
}

/// What follows a step of an upload: the object first, then its record, then
/// the staged file; a failure ends the upload and leaves the file.
pub open spec fn next_upload_step(step: UploadStep, succeeded: bool) -> UploadStep {
    if !succeeded {
        UploadStep::GiveUp
    } else {
        match step {
            UploadStep::StoreObject => UploadStep::InsertRecord,
            UploadStep::InsertRecord => UploadStep::RemoveStaged,
            UploadStep::RemoveStaged => UploadStep::Complete,
            UploadStep::Complete => UploadStep::Complete,
            UploadStep::GiveUp => UploadStep::GiveUp,
        }
    }
}

/// The step after `step`.
pub fn upload_next(step: UploadStep, succeeded: bool) -> (next: UploadStep)
    ensures
        next == next_upload_step(step, succeeded),
{
    if !succeeded {
        return UploadStep::GiveUp;
    }
    match step {
        UploadStep::StoreObject => UploadStep::InsertRecord,
        UploadStep::InsertRecord => UploadStep::RemoveStaged,
        UploadStep::RemoveStaged => UploadStep::Complete,
        UploadStep::Complete => UploadStep::Complete,
        UploadStep::GiveUp => UploadStep::GiveUp,
    }
}

/// An upload's history: the steps it went through and how each of them went.
pub open spec fn is_upload(steps: Seq<UploadStep>, outcomes: Seq<bool>) -> bool {
    &&& steps.len() == outcomes.len() + 1
    &&& steps[0] == UploadStep::StoreObject
    &&& forall|i: int|
        #![trigger outcomes[i]]
        0 <= i < outcomes.len() ==> steps[i + 1] == next_upload_step(steps[i], outcomes[i])
}

/// A staged file is removed only after the object was stored and its record
/// inserted.
pub proof fn law_removed_only_when_recorded(
    steps: Seq<UploadStep>,
    outcomes: Seq<bool>,
    n: int,
)
    requires
        is_upload(steps, outcomes),
        0 <= n < steps.len(),
        steps[n] == UploadStep::RemoveStaged,
    ensures
        n == 2,
        outcomes[0] && outcomes[1],
        steps[1] == UploadStep::InsertRecord,
{
    if n > 0 {
        assert(steps[n] == next_upload_step(steps[n - 1], outcomes[n - 1]));
    }
    if n > 1 {
        assert(steps[n - 1] == next_upload_step(steps[n - 2], outcomes[n - 2]));
    }
    lemma_stored_first(steps, outcomes, n - 2);
}

proof fn lemma_stored_first(steps: Seq<UploadStep>, outcomes: Seq<bool>, n: int)
    requires
        is_upload(steps, outcomes),
        n < steps.len(),
    ensures
        n > 0 ==> steps[n] != UploadStep::StoreObject,
{
    if n > 0 {
        assert(steps[n] == next_upload_step(steps[n - 1], outcomes[n - 1]));
    }
}

/// The byte ranges in which an object of `size` bytes is stored.
pub open spec fn parts_spec(size: int) -> Seq<(u64, u64)>
    decreases size,
{
    if size <= 0 {
        Seq::empty()
    } else {
        let start = PART_BYTES * ((size - 1) / PART_BYTES as int);
        parts_spec(start).push((start as u64, (size - start) as u64))
    }
}

/// The byte ranges, as offset and length, in which an object is stored: full
/// parts and one shorter rest.
pub fn plan_parts(size: u64) -> (parts: Vec<(u64, u64)>)
    ensures
        parts@ == parts_spec(size as int),
{
    let mut parts: Vec<(u64, u64)> = Vec::new();
    let mut start: u64 = 0;
    while start < size
        invariant
            start <= size,
            start < size ==> start % PART_BYTES == 0,
            parts@ == parts_spec(start as int),
        decreases size - start,
    {
        let left: u64 = size - start;
        let length: u64 = if left < PART_BYTES { left } else { PART_BYTES };
        parts.push((start, length));
        start = start + length;
    }
    parts
}

/// The parts of an object follow each other without gap or overlap, each but
/// the last is a full part, and together they are the whole object; there are
/// as few of them as can be.
pub proof fn law_parts_cover(size: u64, i: int)
    requires
        0 <= i < parts_spec(size as int).len(),
    ensures
        parts_spec(size as int).len() == (size + PART_BYTES - 1) / PART_BYTES as int,
        parts_spec(size as int)[i].0 == PART_BYTES * i,
        0 < parts_spec(size as int)[i].1 <= PART_BYTES,
        i + 1 < parts_spec(size as int).len() ==> parts_spec(size as int)[i].1 == PART_BYTES,
        i + 1 == parts_spec(size as int).len() ==> parts_spec(size as int)[i].0 + parts_spec(
            size as int,
        )[i].1 == size,
{
    lemma_part_count(size as int);
    lemma_parts(size as int, i);
}

proof fn lemma_part_count(size: int)
    requires
        0 <= size <= u64::MAX,
    ensures
        parts_spec(size).len() == (size + PART_BYTES - 1) / PART_BYTES as int,
    decreases size,
{
    if size > 0 {
        let start = PART_BYTES * ((size - 1) / PART_BYTES as int);
        lemma_part_count(start);
    }
}

proof fn lemma_parts(size: int, i: int)
    requires
        0 < size <= u64::MAX,
        0 <= i < parts_spec(size).len(),
    ensures
        parts_spec(size)[i].0 == PART_BYTES * i,
        0 < parts_spec(size)[i].1 <= PART_BYTES,
        i + 1 < parts_spec(size).len() ==> parts_spec(size)[i].1 == PART_BYTES,
        i + 1 == parts_spec(size).len() ==> parts_spec(size)[i].0 + parts_spec(size)[i].1 == size,
    decreases size,
{
    let start = PART_BYTES * ((size - 1) / PART_BYTES as int);
    lemma_part_count(size);
    lemma_part_count(start);
    if i + 1 < parts_spec(size).len() {
        lemma_parts(start, i);
    }
}

/// No two checkpoints have the same name: it tells the run and the step.
pub proof fn law_checkpoint_names_differ(run_a: u128, step_a: u64, run_b: u128, step_b: u64)
    requires
        checkpoint_name(run_a, step_a) == checkpoint_name(run_b, step_b),
    ensures
        run_a == run_b,
        step_a == step_b,
{
    lemma_simple_text_len(run_a);
    lemma_simple_text_len(run_b);
    let (a, b) = (checkpoint_name(run_a, step_a), checkpoint_name(run_b, step_b));
    assert(a.take(36) =~= id_text_spec(run_a));
    assert(b.take(36) =~= id_text_spec(run_b));
    law_id_text_injective(run_a, run_b);
    assert(a.skip(37) =~= zero_padded_spec(step_a as nat, 9));
    assert(b.skip(37) =~= zero_padded_spec(step_b as nat, 9));
    crate::text::lemma_zero_padded_injective(step_a as nat, step_b as nat, 9);
}

/// What happens while an object is stored.
pub enum StoreEvent {
    /// The last action was carried out.
    Done,
    /// The last action failed, with this message.
    Failed(String),
}

/// What storing an object takes next.
pub enum StoreAction {
    /// Store the object at once.
    Put,
    /// Begin to store it in parts.
    Begin,
    /// Store this part; parts are numbered from one.
    StorePart { number: u64, offset: u64, length: u64 },
    /// Put the parts together.
    Complete,
    /// Drop the parts that are stored.
    Abort,
    Finish(Result<(), String>),
}

/// How far storing an object has come.
pub enum StoreStage {
    Putting,
    Beginning,
    /// This part is being stored, counted from zero.
    Storing(usize),
    Completing,
    /// The parts are dropped, because of this failure.
    Aborting(String),
    Over,
}

/// Stores an object: at once where it is one part or less, and else in parts.
pub struct ObjectStore {
    parts: Vec<(u64, u64)>,
    stage: StoreStage,
}

/// What is stored of an object: its parts, and how far it has come.
pub struct Storing {
    pub parts: Seq<(u64, u64)>,
    pub stage: StoreStage,
}

impl View for ObjectStore {
    type V = Storing;

    closed spec fn view(&self) -> Storing {
        Storing { parts: self.parts@, stage: self.stage }
    }
}

/// An event makes sense at a stage, until the end.
pub open spec fn store_expects(stage: StoreStage) -> bool {
    !(stage is Over)
}

/// The action that stores a part.
pub open spec fn part_action(parts: Seq<(u64, u64)>, part: int) -> StoreAction {
    StoreAction::StorePart {
        number: (part + 1) as u64,
        offset: parts[part].0,
        length: parts[part].1,
    }
}

/// One step of storing an object. Once it is begun in parts, a failure drops
/// them before it is told.
pub open spec fn store_steps(
    state: Storing,
    event: StoreEvent,
    next: Storing,
    action: StoreAction,
) -> bool {
    &&& next.parts == state.parts
    &&& match (state.stage, event) {
        (StoreStage::Putting, StoreEvent::Done) => {
            &&& next.stage is Over
            &&& action == StoreAction::Finish(Ok(()))
        },
        (StoreStage::Beginning, StoreEvent::Done) => {
            &&& next.stage == StoreStage::Storing(0)
            &&& action == part_action(state.parts, 0)
        },
        (StoreStage::Storing(part), StoreEvent::Done) => if part + 1 < state.parts.len() {
            &&& (next.stage matches StoreStage::Storing(following) && following == part + 1)
            &&& action == part_action(state.parts, part + 1)
        } else {
            &&& next.stage is Completing
            &&& action is Complete
        },
        (StoreStage::Completing, StoreEvent::Done) => {
            &&& next.stage is Over
            &&& action == StoreAction::Finish(Ok(()))
        },
        (StoreStage::Aborting(error), _) => {
            &&& next.stage is Over
            &&& action == StoreAction::Finish(Err(error))
        },
        (StoreStage::Storing(_) | StoreStage::Completing, StoreEvent::Failed(error)) => {
            &&& next.stage == StoreStage::Aborting(error)
            &&& action is Abort
        },
        (_, StoreEvent::Failed(error)) => {
            &&& next.stage is Over
            &&& action == StoreAction::Finish(Err(error))
        },
        _ => false,
    }
}

/// How storing an object of this size begins.
pub open spec fn store_begins(size: u64, state: Storing, action: StoreAction) -> bool {
    &&& state.parts == parts_spec(size as int)
    &&& if size <= PART_BYTES {
        state.stage is Putting && action is Put
    } else {
        state.stage is Beginning && action is Begin
    }
}

impl ObjectStore {
    /// An object in parts has at least two, and the one that is being stored
    /// is one of them.
    pub open spec fn wf(self) -> bool {
        &&& !(self@.stage is Putting || self@.stage is Over) ==> self@.parts.len() > 1
        &&& (self@.stage matches StoreStage::Storing(part) ==> part < self@.parts.len())
    }

    /// Storing an object of this size begins, with its first step.
    pub fn new(size: u64) -> (started: (ObjectStore, StoreAction))
        ensures
            started.0.wf(),
            store_begins(size, started.0@, started.1),
    {
        proof {
            lemma_part_count(size as int);
        }
        let parts = plan_parts(size);
        if size <= PART_BYTES {
            (ObjectStore { parts, stage: StoreStage::Putting }, StoreAction::Put)
        } else {
            (ObjectStore { parts, stage: StoreStage::Beginning }, StoreAction::Begin)
        }
    }

    fn store_part(&self, part: usize) -> (action: StoreAction)
        requires
            part < self@.parts.len(),
        ensures
            action == part_action(self@.parts, part as int),
    {
        let count: usize = self.parts.len();
        assert(part < count);
        let (offset, length): (u64, u64) = self.parts[part];
        StoreAction::StorePart { number: part as u64 + 1, offset, length }
    }

    /// One step: takes what happened and says what to do next.
    pub fn step(&mut self, event: StoreEvent) -> (action: StoreAction)
        requires
            old(self).wf(),
            store_expects(old(self)@.stage),
        ensures
            final(self).wf(),
            store_steps(old(self)@, event, final(self)@, action),
    {
        let mut stage = StoreStage::Over;
        std::mem::swap(&mut stage, &mut self.stage);
        match (stage, event) {
            (StoreStage::Putting, StoreEvent::Done) => StoreAction::Finish(Ok(())),
            (StoreStage::Beginning, StoreEvent::Done) => {
                self.stage = StoreStage::Storing(0);
                self.store_part(0)
            },
            (StoreStage::Storing(part), StoreEvent::Done) => {
                if part < self.parts.len() - 1 {
                    self.stage = StoreStage::Storing(part + 1);
                    self.store_part(part + 1)
                } else {
                    self.stage = StoreStage::Completing;
                    StoreAction::Complete
                }
            },
            (StoreStage::Completing, StoreEvent::Done) => StoreAction::Finish(Ok(())),
            (StoreStage::Aborting(error), _) => StoreAction::Finish(Err(error)),
            (StoreStage::Storing(_), StoreEvent::Failed(error)) => {
                self.stage = StoreStage::Aborting(error);
                StoreAction::Abort
            },
            (StoreStage::Completing, StoreEvent::Failed(error)) => {
                self.stage = StoreStage::Aborting(error);
                StoreAction::Abort
            },
            (_, StoreEvent::Failed(error)) => StoreAction::Finish(Err(error)),
            _ => StoreAction::Abort,
        }
    }
}

/// The history of storing an object: the states, what happened, and what was
/// done, the first action being the one that it began with.
pub open spec fn is_store_history(
    size: u64,
    states: Seq<Storing>,
    events: Seq<StoreEvent>,
    actions: Seq<StoreAction>,
) -> bool {
    &&& states.len() == events.len() + 1
    &&& actions.len() == events.len() + 1
    &&& store_begins(size, states[0], actions[0])
    &&& forall|i: int|
        #![trigger events[i]]
        0 <= i < events.len() ==> store_expects(states[i].stage) && store_steps(
            states[i],
            events[i],
            states[i + 1],
            actions[i + 1],
        )
}

/// The byte ranges that were to be stored as parts, in order.
pub open spec fn parts_stored(actions: Seq<StoreAction>) -> Seq<(u64, u64)>
    decreases actions.len(),
{
    if actions.len() == 0 {
        Seq::empty()
    } else {
        match actions.last() {
            StoreAction::StorePart { number, offset, length } => parts_stored(
                actions.drop_last(),
            ).push((offset, length)),
            _ => parts_stored(actions.drop_last()),
        }
    }
}

/// What is true of the stored parts at a stage.
spec fn store_holds(size: u64, state: Storing, stored: Seq<(u64, u64)>, action: StoreAction) -> bool {
    let parts = parts_spec(size as int);
    &&& state.parts == parts
    &&& stored.len() <= parts.len()
    &&& stored == parts.take(stored.len() as int)
    &&& (state.stage is Putting <==> action is Put)
    &&& (state.stage is Completing <==> action is Complete)
    &&& (state.stage is Aborting <==> action is Abort)
    &&& (state.stage is Over <==> action is Finish)
    &&& match state.stage {
        StoreStage::Putting => size <= PART_BYTES && stored.len() == 0,
        StoreStage::Beginning => size > PART_BYTES && stored.len() == 0,
        StoreStage::Storing(part) => size > PART_BYTES && stored.len() == part + 1,
        StoreStage::Completing => size > PART_BYTES && stored.len() == parts.len(),
        StoreStage::Aborting(_) => size > PART_BYTES && stored.len() > 0,
        StoreStage::Over => true,
    }
}

proof fn lemma_store_step(
    size: u64,
    before: Storing,
    event: StoreEvent,
    after: Storing,
    action: StoreAction,
    last: StoreAction,
    stored: Seq<(u64, u64)>,
)
    requires
        store_holds(size, before, stored, last),
        store_expects(before.stage),
        store_steps(before, event, after, action),
        size > PART_BYTES ==> parts_spec(size as int).len() > 1,
    ensures
        store_holds(
            size,
            after,
            match action {
                StoreAction::StorePart { number, offset, length } => stored.push((offset, length)),
                _ => stored,
            },
            action,
        ),
{
    let parts = parts_spec(size as int);
    if stored.len() < parts.len() {
        let part = stored.len() as int;
        assert(parts.take(part + 1) =~= parts.take(part).push(parts[part]));
    }
}

proof fn lemma_store_holds(
    size: u64,
    states: Seq<Storing>,
    events: Seq<StoreEvent>,
    actions: Seq<StoreAction>,
    n: int,
)
    requires
        is_store_history(size, states, events, actions),
        0 <= n <= events.len(),
    ensures
        store_holds(size, states[n], parts_stored(actions.take(n + 1)), actions[n]),
    decreases n,
{
    let parts = parts_spec(size as int);
    assert(actions.take(n + 1).drop_last() =~= actions.take(n));
    if n == 0 {
        assert(parts_stored(actions.take(0)) =~= parts.take(0));
    } else {
        lemma_store_holds(size, states, events, actions, n - 1);
        assert(store_steps(states[n - 1], events[n - 1], states[n], actions[n]));
        lemma_part_count(size as int);
        lemma_store_step(
            size,
            states[n - 1],
            events[n - 1],
            states[n],
            actions[n],
            actions[n - 1],
            parts_stored(actions.take(n)),
        );
    }
}

/// An object of at most one part is put at once, and any other is stored part
/// by part, in order. Parts are put together only when all of them are stored;
/// whoever is told that storing failed after a part was stored has dropped the
/// parts before.
pub proof fn law_object_is_stored_whole(
    size: u64,
    states: Seq<Storing>,
    events: Seq<StoreEvent>,
    actions: Seq<StoreAction>,
    n: int,
)
    requires
        is_store_history(size, states, events, actions),
        0 <= n < actions.len(),
    ensures
        ({
            let stored = parts_stored(actions.take(n + 1));
            let parts = parts_spec(size as int);
            &&& stored == parts.take(stored.len() as int)
            &&& actions[n] is Put ==> n == 0 && size <= PART_BYTES
            &&& actions[n] is Complete ==> size > PART_BYTES && stored == parts
            &&& actions[n] matches StoreAction::Finish(Ok(_)) ==> n > 0 && (if size <= PART_BYTES {
                actions[n - 1] is Put
            } else {
                actions[n - 1] is Complete
            })
            &&& actions[n] matches StoreAction::Finish(Err(_)) ==> n > 0 && (stored.len() > 0
                ==> actions[n - 1] is Abort)
        }),
{
    lemma_store_holds(size, states, events, actions, n);
    let stored = parts_stored(actions.take(n + 1));
    let parts = parts_spec(size as int);
    if stored.len() == parts.len() {
        assert(parts.take(stored.len() as int) =~= parts);
    }
    if n > 0 {
        lemma_store_holds(size, states, events, actions, n - 1);
        let event = events[n - 1];
        assert(store_expects(states[n - 1].stage));
        assert(store_steps(states[n - 1], event, states[n], actions[n]));
        assert(actions.take(n + 1).drop_last() =~= actions.take(n));
    }
}

/// A text without its outer slashes is the part of it from `a` to `b`.
pub open spec fn is_without_slashes(text: Seq<char>, a: int, b: int) -> bool {
    &&& 0 <= a <= b <= text.len()
    &&& without_outer_slashes(text) == text.subrange(a, b)
    &&& forall|k: int| 0 <= k < a ==> #[trigger] text[k] == '/'
    &&& forall|k: int| b <= k < text.len() ==> #[trigger] text[k] == '/'
    &&& a < b ==> text[a] != '/' && text[b - 1] != '/'
}

proof fn lemma_leading_end(text: Seq<char>) -> (a: int)
    ensures
        0 <= a <= text.len(),
        without_leading_slashes(text) == text.skip(a),
        forall|k: int| 0 <= k < a ==> #[trigger] text[k] == '/',
        a < text.len() ==> text[a] != '/',
    decreases text.len(),
{
    if text.len() > 0 && text[0] == '/' {
        let rest = text.drop_first();
        let a = lemma_leading_end(rest);
        assert(text.skip(a + 1) =~= rest.skip(a));
        assert forall|k: int| 0 <= k < a + 1 implies #[trigger] text[k] == '/' by {
            if k > 0 {
                assert(rest[k - 1] == text[k]);
            }
        }
        a + 1
    } else {
        assert(text.skip(0) =~= text);
        0
    }
}

proof fn lemma_trailing_end(text: Seq<char>) -> (b: int)
    ensures
        0 <= b <= text.len(),
        without_trailing_slashes(text) == text.take(b),
        forall|k: int| b <= k < text.len() ==> #[trigger] text[k] == '/',
        b > 0 ==> text[b - 1] != '/',
    decreases text.len(),
{
    if text.len() > 0 && text.last() == '/' {
        let rest = text.drop_last();
        let b = lemma_trailing_end(rest);
        assert(text.take(b) =~= rest.take(b));
        assert forall|k: int| b <= k < text.len() implies #[trigger] text[k] == '/' by {
            if k < rest.len() {
                assert(rest[k] == text[k]);
            }
        }
        b
    } else {
        assert(text.take(text.len() as int) =~= text);
        text.len() as int
    }
}

/// Taking the slashes off takes all those at either end, and nothing else.
pub proof fn law_only_outer_slashes_go(text: Seq<char>)
    ensures
        exists|a: int, b: int| is_without_slashes(text, a, b),
{
    let a = lemma_leading_end(text);
    let rest = text.skip(a);
    let c = lemma_trailing_end(rest);
    let b = a + c;
    assert(rest.take(c) =~= text.subrange(a, b));
    assert forall|k: int| b <= k < text.len() implies #[trigger] text[k] == '/' by {
        assert(rest[k - a] == text[k]);
    }
    if a < b {
        assert(rest[0] == text[a]);
        assert(rest[c - 1] == text[b - 1]);
    }
    assert(is_without_slashes(text, a, b));
}

/// An object's key is its prefix, a slash and its identifier, so that no two
/// objects under a prefix share a key.
pub proof fn law_object_keys(prefix: Seq<char>, a: u128, b: u128)
    ensures
        object_key(prefix, a).take(prefix.len() as int) == prefix,
        object_key(prefix, a)[prefix.len() as int] == '/',
        object_key(prefix, a).skip(prefix.len() + 1int) == id_text_spec(a),
        object_key(prefix, a) == object_key(prefix, b) ==> a == b,
{
    assert(object_key(prefix, a).take(prefix.len() as int) =~= prefix);
    assert(object_key(prefix, a).skip(prefix.len() + 1int) =~= id_text_spec(a));
    assert(object_key(prefix, b).skip(prefix.len() + 1int) =~= id_text_spec(b));
    if object_key(prefix, a) == object_key(prefix, b) {
        law_id_text_injective(a, b);
    }
}

/// A checkpoint is named by its run, an underscore, and its step in nine digits
/// or more; the digits read back as the step.
pub proof fn law_checkpoint_name_tells_run_and_step(run_id: u128, step: u64)
    ensures
        checkpoint_name(run_id, step).take(36) == id_text_spec(run_id),
        checkpoint_name(run_id, step)[36] == '_',
        checkpoint_name(run_id, step).len() >= 46,
        crate::text::decimal_value(checkpoint_name(run_id, step).skip(37)) == step,
{
    lemma_simple_text_len(run_id);
    let name = checkpoint_name(run_id, step);
    assert(name.take(36) =~= id_text_spec(run_id));
    assert(name.skip(37) =~= zero_padded_spec(step as nat, 9));
    crate::text::law_padded_numeral(step as nat, 9);
}

/// The archive of a checkpoint is the file `step_`, the step in nine digits or
/// more and `.tar`, in its run's directory; the digits read back as the step.
pub proof fn law_archive_tells_run_and_step(root: Seq<char>, run_id: u128, step: u64)
    ensures
        ({
            let digits = zero_padded_spec(step as nat, 9);
            let name = seq!['s', 't', 'e', 'p', '_'] + digits + seq!['.', 't', 'a', 'r'];
            &&& archive_path_spec(root, run_id, step) == joined(
                joined(root, id_text_spec(run_id)),
                name,
            )
            &&& digits.len() >= 9
            &&& crate::text::decimal_value(digits) == step
        }),
{
    reveal_strlit("step_");
    reveal_strlit(".tar");
    assert("step_"@ =~= seq!['s', 't', 'e', 'p', '_']);
    assert(".tar"@ =~= seq!['.', 't', 'a', 'r']);
    crate::text::law_padded_numeral(step as nat, 9);
}

/// An upload stores the object, then inserts its record, then removes the
/// staged file, and then is complete; whatever fails ends it there and then.
pub proof fn law_upload_goes_in_order(steps: Seq<UploadStep>, outcomes: Seq<bool>, n: int)
    requires
        is_upload(steps, outcomes),
        0 <= n < outcomes.len(),
    ensures
        (forall|k: int| 0 <= k < n ==> #[trigger] outcomes[k]) ==> {
            &&& n == 0 ==> steps[n] == UploadStep::StoreObject
            &&& n == 1 ==> steps[n] == UploadStep::InsertRecord
            &&& n == 2 ==> steps[n] == UploadStep::RemoveStaged
            &&& n >= 3 ==> steps[n] == UploadStep::Complete
        },
        !outcomes[n] ==> steps[n + 1] == UploadStep::GiveUp,
        steps[n] == UploadStep::GiveUp ==> steps[n + 1] == UploadStep::GiveUp,
    decreases n,
{
    assert(steps[n + 1] == next_upload_step(steps[n], outcomes[n]));
    if n > 0 {
        law_upload_goes_in_order(steps, outcomes, n - 1);
        assert(steps[n] == next_upload_step(steps[n - 1], outcomes[n - 1]));
    }
}

/// Parts are 64 mebibytes.
pub proof fn law_part_size()
    ensures
        PART_BYTES == 64 * 1024 * 1024,
{
}

/// Parts are numbered from one in the order in which they are stored: part
/// `number` begins behind `number - 1` full parts.
pub proof fn law_parts_are_numbered(
    size: u64,
    states: Seq<Storing>,
    events: Seq<StoreEvent>,
    actions: Seq<StoreAction>,
    n: int,
)
    requires
        is_store_history(size, states, events, actions),
        0 <= n < actions.len(),
    ensures
        actions[n] matches StoreAction::StorePart { number, offset, length } ==> {
            &&& number == parts_stored(actions.take(n + 1)).len()
            &&& offset == 67_108_864 * (number - 1)
            &&& 0 < length <= 67_108_864
            &&& offset + length <= size
            &&& length < 67_108_864 ==> offset + length == size
        },
{
    lemma_store_holds(size, states, events, actions, n);
    assert(actions.take(n + 1).drop_last() =~= actions.take(n));
    let stored = parts_stored(actions.take(n + 1));
    let parts = parts_spec(size as int);
    lemma_part_count(size as int);
    if n > 0 {
        lemma_store_holds(size, states, events, actions, n - 1);
        assert(store_steps(states[n - 1], events[n - 1], states[n], actions[n]));
        if actions[n] is StorePart {
            let part = stored.len() - 1;
            assert(stored[part] == parts[part]);
            lemma_parts(size as int, part);
            if part + 1 < parts.len() {
                lemma_parts(size as int, part + 1);
            }
        }
    }
}

/// Whoever is told that storing failed is told why: with the message of the
/// failure that was met just now, or of the one after which the parts were
/// dropped. What goes well goes on, and a failure never does.
pub proof fn law_failure_to_store_is_told(
    size: u64,
    states: Seq<Storing>,
    events: Seq<StoreEvent>,
    actions: Seq<StoreAction>,
    n: int,
)
    requires
        is_store_history(size, states, events, actions),
        0 <= n < events.len(),
    ensures
        actions[n + 1] matches StoreAction::Finish(Err(error)) ==> events[n] == StoreEvent::Failed(
            error,
        ) || (n > 0 && actions[n] is Abort && events[n - 1] == StoreEvent::Failed(error)),
        events[n] matches StoreEvent::Failed(error) ==> actions[n + 1] is Abort || actions[n
            + 1] matches StoreAction::Finish(Err(_)),
        actions[n] is Abort ==> actions[n + 1] matches StoreAction::Finish(Err(_)),
        actions[n] is Put && events[n] is Done ==> actions[n + 1] == StoreAction::Finish(Ok(())),
        actions[n] is Complete && events[n] is Done ==> actions[n + 1] == StoreAction::Finish(
            Ok(()),
        ),
        actions[n] is Begin && events[n] is Done ==> actions[n + 1] is StorePart,
        actions[n] is StorePart && events[n] is Done ==> actions[n + 1] is StorePart || actions[n
            + 1] is Complete,
        actions[n] is Put || actions[n] is Begin ==> (events[n] matches StoreEvent::Failed(error)
            ==> actions[n + 1] == StoreAction::Finish(Err(error))),
        actions[n] is StorePart || actions[n] is Complete ==> (events[n] is Failed ==> actions[n
            + 1] is Abort),
{
    lemma_store_holds(size, states, events, actions, n);
    assert(store_expects(states[n].stage) && store_steps(
        states[n],
        events[n],
        states[n + 1],
        actions[n + 1],
    ));
    if n > 0 {
        lemma_store_holds(size, states, events, actions, n - 1);
        assert(store_expects(states[n - 1].stage) && store_steps(
            states[n - 1],
            events[n - 1],
            states[n],
            actions[n],
        ));
    }
}

} // verus!
