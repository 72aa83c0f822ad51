//! Batches from the server, cut into the samples that the workers get.
use crate::text::{concat3, decimal, decimal_spec};
use std::collections::VecDeque;
use vstd::prelude::*;
use vstd::string::*;

verus! {

/// How long opening the data stream may take, in seconds.
pub const OPEN_TIMEOUT_SECONDS: u64 = 120;

/// A message to a transform worker; `duration` holds the bits of a 64-bit float.
pub enum Work {
    Sample {
        batch: (u64, usize),
        index: usize,
        wave: Vec<u8>,
        text: Vec<u8>,
        duration: u64,
        speaker_id: i64,
        language_id: i32,
    },
    End,
}

/// A sample as the server sends it.
pub struct RawSample {
    pub wave: Vec<u8>,
    pub text: Vec<u8>,
    pub duration: u64,
    pub speaker_id: i64,
    pub language_id: i32,
}

/// The message for one sample of a batch.
pub open spec fn sample_work(batch_id: u64, size: usize, index: int, sample: RawSample) -> Work {
    Work::Sample {
        batch: (batch_id, size),
        index: index as usize,
        wave: sample.wave,
        text: sample.text,
        duration: sample.duration,
        speaker_id: sample.speaker_id,
        language_id: sample.language_id,
    }
}

/// A sample holds whole 16-bit values and whole 64-bit tokens.
pub open spec fn sound(sample: RawSample) -> bool {
    sample.wave@.len() % 2 == 0 && sample.text@.len() % 8 == 0
}

/// The message that refuses a sample.
pub open spec fn sample_error(batch_id: u64, index: int, sample: RawSample) -> Seq<char> {
    "batch "@ + decimal_spec(batch_id as nat) + " sample "@ + decimal_spec(index as nat) + if sample.wave@.len() % 2 != 0 {
        ": invalid int16 PCM"@
    } else {
        ": invalid int64 tokens"@
    }
}

/// The samples before the first that is not sound.
pub open spec fn sound_prefix(samples: Seq<RawSample>) -> nat
    decreases samples.len(),
{
    if samples.len() == 0 {
        0
    } else {
        let before = sound_prefix(samples.drop_last());
        if before == samples.len() - 1 && sound(samples.last()) {
            samples.len()
        } else {
            before
        }
    }
}

/// A batch is accepted: it is not empty and every sample of it is sound.
pub open spec fn accepted(samples: Seq<RawSample>) -> bool {
    samples.len() > 0 && sound_prefix(samples) == samples.len()
}

/// The messages for the samples of a batch, up to the first that is refused.
pub open spec fn batch_works(batch_id: u64, samples: Seq<RawSample>) -> Seq<Work> {
    Seq::new(
        sound_prefix(samples),
        |i: int| sample_work(batch_id, samples.len() as usize, i, samples[i]),
    )
}

/// The message that refuses a batch that is not accepted.
pub open spec fn batch_error(batch_id: u64, samples: Seq<RawSample>) -> Seq<char> {
    if samples.len() == 0 {
        "batch "@ + decimal_spec(batch_id as nat) + ": empty batches are unsupported"@
    } else {
        let n = sound_prefix(samples) as int;
        sample_error(batch_id, n, samples[n])
    }
}

/// What a batch with this number gives, and the number of the next: a batch
/// that is refused leaves its number.
pub open spec fn expands(
    batch_id: u64,
    samples: Seq<RawSample>,
    works: Seq<Work>,
    error: Option<String>,
    next: u64,
) -> bool {
    &&& works == batch_works(batch_id, samples)
    &&& match error {
        None => accepted(samples) && next == (batch_id + 1) % 0x1_0000_0000_0000_0000,
        Some(message) => !accepted(samples) && next == batch_id && message@ == batch_error(
            batch_id,
            samples,
        ),
    }
}

/// What a batch gives: the messages for its samples up to the first that is
/// refused, and the reason for the refusal.
pub struct Expanded {
    pub works: Vec<Work>,
    pub error: Option<String>,
}

/// Numbers batches in the order they come.
pub struct BatchCounter {
    pub batch_id: u64,
}

impl BatchCounter {
    /// The first batch is number zero.
    pub fn new() -> (counter: BatchCounter)
        ensures
            counter.batch_id == 0,
    {
        BatchCounter { batch_id: 0 }
    }

    /// Cuts the next batch into messages. A batch must not be empty.
    pub fn expand(&mut self, samples: Vec<RawSample>) -> (expanded: Expanded)
        ensures
            expands(
                old(self).batch_id,
                samples@,
                expanded.works@,
                expanded.error,
                final(self).batch_id,
            ),
            expanded.works@.len() <= samples@.len(),
            forall|i: int|
                0 <= i < expanded.works@.len() ==> {
                    &&& #[trigger] expanded.works@[i] matches Work::Sample {
                        batch,
                        index,
                        wave,
                        text,
                        duration,
                        speaker_id,
                        language_id,
                    }
                    &&& batch == (old(self).batch_id, samples@.len() as usize)
                    &&& index == i
                    &&& wave@ == samples@[i].wave@
                    &&& text@ == samples@[i].text@
                    &&& duration == samples@[i].duration
                    &&& speaker_id == samples@[i].speaker_id
                    &&& language_id == samples@[i].language_id
                },
            expanded.error is None <==> samples@.len() > 0 && expanded.works@.len()
                == samples@.len(),
    {
        let batch_id: u64 = self.batch_id;
        let size: usize = samples.len();
        let ghost all = samples@;
        let mut works: Vec<Work> = Vec::new();
        if size == 0 {
            let number = decimal(batch_id);
            assert(works@ =~= batch_works(batch_id, samples@));
            return Expanded {
                works,
                error: Some(concat3("batch ", number.as_str(), ": empty batches are unsupported")),
            };
        }
        let mut index: usize = 0;
        assert(all.take(0) =~= Seq::<RawSample>::empty());
        for sample in iter: samples
            invariant
                iter.seq() == all,
                all == samples@,
                all.len() == size,
                index == iter.index(),
                works@.len() == index,
                sound_prefix(all.take(index as int)) == index,
                forall|i: int|
                    0 <= i < index ==> #[trigger] works@[i] == sample_work(batch_id, size, i, all[i]),
                self.batch_id == batch_id,
        {
            proof {
                assert(sample == all[index as int]);
                assert(all.take(index + 1).drop_last() =~= all.take(index as int));
                assert(all.take(index + 1).last() == sample);
            }
            if sample.wave.len() % 2 != 0 || sample.text.len() % 8 != 0 {
                proof {
                    lemma_stops(all, index + 1);
                    assert(works@ =~= batch_works(batch_id, all));
                }
                let invalid_wave = sample.wave.len() % 2 != 0;
                let mut message = concat3("batch ", decimal(batch_id).as_str(), " sample ");
                message.append(decimal(index as u64).as_str());
                message.append(
                    if invalid_wave {
                        ": invalid int16 PCM"
                    } else {
                        ": invalid int64 tokens"
                    },
                );
                return Expanded { works, error: Some(message) };
            }
            works.push(
                Work::Sample {
                    batch: (batch_id, size),
                    index,
                    wave: sample.wave,
                    text: sample.text,
                    duration: sample.duration,
                    speaker_id: sample.speaker_id,
                    language_id: sample.language_id,
                },
            );
            index = index + 1;
        }
        assert(all.take(index as int) =~= all);
        assert(works@ =~= batch_works(batch_id, all));
        self.batch_id = batch_id.wrapping_add(1);
        Expanded { works, error: None }
    }
}

proof fn lemma_stops(all: Seq<RawSample>, n: int)
    requires
        0 < n <= all.len(),
        sound_prefix(all.take(n)) == n - 1,
    ensures
        sound_prefix(all) == n - 1,
    decreases all.len() - n,
{
    if n < all.len() {
        lemma_stops_step(all, n, all.len() as int);
    }
    assert(all.take(all.len() as int) =~= all);
}

proof fn lemma_stops_step(all: Seq<RawSample>, n: int, k: int)
    requires
        0 < n <= k <= all.len(),
        sound_prefix(all.take(n)) == n - 1,
    ensures
        sound_prefix(all.take(k)) == n - 1,
    decreases k - n,
{
    if k > n {
        lemma_stops_step(all, n, k - 1);
        assert(all.take(k).drop_last() =~= all.take(k - 1));
    }
}

/// Samples are delivered up to the first that is not sound: all of those
/// before it are sound, and the whole batch is delivered if and only if every
/// sample of it is.
pub proof fn law_sound_batches_are_whole(samples: Seq<RawSample>)
    ensures
        sound_prefix(samples) <= samples.len(),
        forall|i: int| 0 <= i < sound_prefix(samples) ==> sound(#[trigger] samples[i]),
        sound_prefix(samples) < samples.len() ==> !sound(samples[sound_prefix(samples) as int]),
        sound_prefix(samples) == samples.len() <==> forall|i: int|
            0 <= i < samples.len() ==> sound(#[trigger] samples[i]),
    decreases samples.len(),
{
    if samples.len() > 0 {
        let shorter = samples.drop_last();
        law_sound_batches_are_whole(shorter);
        let n = sound_prefix(samples);
        assert forall|i: int| 0 <= i < n implies sound(#[trigger] samples[i]) by {
            if i < shorter.len() {
                assert(shorter[i] == samples[i]);
                if i < sound_prefix(shorter) {
                    assert(sound(shorter[i]));
                }
            }
        }
        if sound_prefix(shorter) < shorter.len() {
            assert(shorter[sound_prefix(shorter) as int] == samples[sound_prefix(shorter) as int]);
        }
    }
}

/// What happens to the pump.
pub enum PumpEvent {
    /// The stream of batches is open.
    Opened,
    /// A batch came.
    Batch(Vec<RawSample>),
    /// The stream of batches has ended.
    StreamEnded,
    /// The message was sent.
    Sent,
    /// The producer of requests has finished.
    RequestsFinished,
    /// The last action failed, with this message.
    Failed(String),
}

/// What the pump does next.
pub enum PumpAction {
    /// Open the stream of batches.
    Open,
    /// Wait for a batch.
    Receive,
    /// Send this sample to the workers.
    Send(Work),
    /// Cancel the budget and wait for the producer of requests.
    FinishRequests,
    /// Tell the workers that the data has ended.
    SendEnd,
    /// The pump is over; whatever produces requests is ended.
    Stop(Result<(), String>),
}

#[derive(Clone, Copy, Debug, PartialEq, Eq, Structural)]
pub enum PumpStage {
    Opening,
    Receiving,
    Sending,
    Finishing,
    Ending,
    Over,
}

/// The state of the pump: the number of the next batch, the messages of the
/// last batch that are still to be sent, and why that batch is refused.
pub struct PumpState {
    pub stage: PumpStage,
    pub batch_id: u64,
    pub works: Seq<Work>,
    pub error: Option<String>,
}

/// Takes batches from the server and sends their samples to the workers.
pub struct Pump {
    stage: PumpStage,
    counter: BatchCounter,
    works: VecDeque<Work>,
    error: Option<String>,
}

impl View for Pump {
    type V = PumpState;

    closed spec fn view(&self) -> PumpState {
        PumpState {
            stage: self.stage,
            batch_id: self.counter.batch_id,
            works: self.works@,
            error: self.error,
        }
    }
}

/// A pump at the beginning.
pub open spec fn pump_begun() -> PumpState {
    PumpState { stage: PumpStage::Opening, batch_id: 0, works: Seq::empty(), error: None }
}

/// An event makes sense at a stage.
pub open spec fn pump_expects(stage: PumpStage, event: PumpEvent) -> bool {
    match stage {
        PumpStage::Opening => event is Opened || event is Failed,
        PumpStage::Receiving => event is Batch || event is StreamEnded || event is Failed,
        PumpStage::Sending | PumpStage::Ending => event is Sent || event is Failed,
        PumpStage::Finishing => event is RequestsFinished || event is Failed,
        PumpStage::Over => false,
    }
}

/// The next message of a batch is sent; behind the last one the next batch is
/// awaited, or the pump stops where the batch is refused.
pub open spec fn pump_goes_on(state: PumpState, next: PumpState, action: PumpAction) -> bool {
    if state.works.len() > 0 {
        &&& next == PumpState {
            stage: PumpStage::Sending,
            works: state.works.drop_first(),
            ..state
        }
        &&& action == PumpAction::Send(state.works[0])
    } else {
        match state.error {
            Some(error) => {
                &&& next == PumpState { stage: PumpStage::Over, error: None, ..state }
                &&& action == PumpAction::Stop(Err(error))
            },
            None => {
                &&& next == PumpState { stage: PumpStage::Receiving, ..state }
                &&& action == PumpAction::Receive
            },
        }
    }
}

/// One step of the pump.
pub open spec fn pump_steps(
    state: PumpState,
    event: PumpEvent,
    next: PumpState,
    action: PumpAction,
) -> bool {
    match (state.stage, event) {
        (PumpStage::Opening, PumpEvent::Opened) => {
            &&& next == PumpState { stage: PumpStage::Receiving, ..state }
            &&& action == PumpAction::Receive
        },
        (PumpStage::Receiving, PumpEvent::Batch(samples)) => {
            exists|taken: PumpState| #[trigger]
                pump_takes(state, samples@, taken) && pump_goes_on(taken, next, action)
        },
        (PumpStage::Sending, PumpEvent::Sent) => pump_goes_on(state, next, action),
        (PumpStage::Receiving, PumpEvent::StreamEnded) => {
            &&& next == PumpState { stage: PumpStage::Finishing, ..state }
            &&& action == PumpAction::FinishRequests
        },
        (PumpStage::Finishing, PumpEvent::RequestsFinished) => {
            &&& next == PumpState { stage: PumpStage::Ending, ..state }
            &&& action == PumpAction::SendEnd
        },
        (PumpStage::Ending, PumpEvent::Sent) => {
            &&& next == PumpState { stage: PumpStage::Over, ..state }
            &&& action == PumpAction::Stop(Ok(()))
        },
        (_, PumpEvent::Failed(error)) => {
            &&& next == PumpState { stage: PumpStage::Over, ..state }
            &&& action == PumpAction::Stop(Err(error))
        },
        _ => false,
    }
}

/// A batch is taken: its messages are to be sent.
pub open spec fn pump_takes(state: PumpState, samples: Seq<RawSample>, taken: PumpState) -> bool {
    &&& taken.stage == state.stage
    &&& expands(state.batch_id, samples, taken.works, taken.error, taken.batch_id)
}

impl Pump {
    /// A pump that begins, with its first step.
    pub fn new() -> (started: (Pump, PumpAction))
        ensures
            started.0@ == pump_begun(),
            started.1 == PumpAction::Open,
    {
        let pump = Pump {
            stage: PumpStage::Opening,
            counter: BatchCounter::new(),
            works: VecDeque::new(),
            error: None,
        };
        assert(pump.works@ =~= Seq::<Work>::empty());
        (pump, PumpAction::Open)
    }

    fn go_on(&mut self) -> (action: PumpAction)
        ensures
            pump_goes_on(old(self)@, final(self)@, action),
    {
        let ghost before = self.works@;
        match self.works.pop_front() {
            Some(work) => {
                self.stage = PumpStage::Sending;
                assert(self.works@ =~= before.drop_first());
                PumpAction::Send(work)
            },
            None => match self.error.take() {
                Some(error) => {
                    self.stage = PumpStage::Over;
                    PumpAction::Stop(Err(error))
                },
                None => {
                    self.stage = PumpStage::Receiving;
                    PumpAction::Receive
                },
            },
        }
    }

    fn take_batch(&mut self, samples: Vec<RawSample>)
        ensures
            pump_takes(old(self)@, samples@, final(self)@),
    {
        let expanded = self.counter.expand(samples);
        let ghost all = expanded.works@;
        let works = expanded.works;
        let mut queue: VecDeque<Work> = VecDeque::new();
        for work in iter: works
            invariant
                iter.seq() == all,
                queue@ == all.take(iter.index() as int),
        {
            queue.push_back(work);
        }
        assert(all.take(all.len() as int) =~= all);
        self.works = queue;
        self.error = expanded.error;
    }

    /// One step: takes what happened and says what to do next.
    pub fn step(&mut self, event: PumpEvent) -> (action: PumpAction)
        requires
            pump_expects(old(self)@.stage, event),
        ensures
            pump_steps(old(self)@, event, final(self)@, action),
    {
        match (self.stage, event) {
            (PumpStage::Opening, PumpEvent::Opened) => {
                self.stage = PumpStage::Receiving;
                PumpAction::Receive
            },
            (PumpStage::Receiving, PumpEvent::Batch(samples)) => {
                self.take_batch(samples);
                assert(pump_takes(old(self)@, samples@, self@));
                self.go_on()
            },
            (PumpStage::Sending, PumpEvent::Sent) => self.go_on(),
            (PumpStage::Receiving, PumpEvent::StreamEnded) => {
                self.stage = PumpStage::Finishing;
                PumpAction::FinishRequests
            },
            (PumpStage::Finishing, PumpEvent::RequestsFinished) => {
                self.stage = PumpStage::Ending;
                PumpAction::SendEnd
            },
            (PumpStage::Ending, PumpEvent::Sent) => {
                self.stage = PumpStage::Over;
                PumpAction::Stop(Ok(()))
            },
            (_, PumpEvent::Failed(error)) => {
                self.stage = PumpStage::Over;
                PumpAction::Stop(Err(error))
            },
            _ => PumpAction::Receive,
        }
    }
}

/// A pump's history: the states it went through, what happened and what was
/// done.
pub open spec fn is_pump_history(
    states: Seq<PumpState>,
    events: Seq<PumpEvent>,
    actions: Seq<PumpAction>,
) -> bool {
    &&& states.len() == events.len() + 1
    &&& actions.len() == events.len()
    &&& states[0] == pump_begun()
    &&& forall|i: int|
        #![trigger events[i]]
        0 <= i < events.len() ==> pump_expects(states[i].stage, events[i]) && pump_steps(
            states[i],
            events[i],
            states[i + 1],
            actions[i],
        )
}

/// The batches that came, in order.
pub open spec fn batches_in(events: Seq<PumpEvent>) -> Seq<Seq<RawSample>>
    decreases events.len(),
{
    if events.len() == 0 {
        Seq::empty()
    } else {
        match events.last() {
            PumpEvent::Batch(samples) => batches_in(events.drop_last()).push(samples@),
            _ => batches_in(events.drop_last()),
        }
    }
}

/// The samples that were sent, in order.
pub open spec fn works_sent(actions: Seq<PumpAction>) -> Seq<Work>
    decreases actions.len(),
{
    if actions.len() == 0 {
        Seq::empty()
    } else {
        match actions.last() {
            PumpAction::Send(work) => works_sent(actions.drop_last()).push(work),
            _ => works_sent(actions.drop_last()),
        }
    }
}

/// The number of the batch that comes after `count` others.
pub open spec fn batch_number(count: nat) -> u64 {
    (count % 0x1_0000_0000_0000_0000) as u64
}

/// The messages for some batches, numbered in the order in which they came:
/// batch by batch, and sample by sample.
pub open spec fn works_of(batches: Seq<Seq<RawSample>>) -> Seq<Work>
    decreases batches.len(),
{
    if batches.len() == 0 {
        Seq::empty()
    } else {
        works_of(batches.drop_last()) + batch_works(
            batch_number((batches.len() - 1) as nat),
            batches.last(),
        )
    }
}

/// All of the batches are accepted.
pub open spec fn all_accepted(batches: Seq<Seq<RawSample>>) -> bool {
    forall|k: int| 0 <= k < batches.len() ==> accepted(#[trigger] batches[k])
}

/// Some batch came last, and all before it are accepted.
spec fn accepted_before_last(batches: Seq<Seq<RawSample>>) -> bool {
    batches.len() > 0 ==> all_accepted(batches.drop_last())
}

proof fn lemma_batch_taken(batches: Seq<Seq<RawSample>>, samples: Seq<RawSample>, batch_id: u64)
    requires
        all_accepted(batches),
        batch_id == batch_number(batches.len()),
    ensures
        accepted_before_last(batches.push(samples)),
        works_of(batches.push(samples)) == works_of(batches) + batch_works(batch_id, samples),
        accepted(samples) ==> all_accepted(batches.push(samples)) && batch_number(
            batches.push(samples).len(),
        ) == (batch_id + 1) % 0x1_0000_0000_0000_0000,
{
    let longer = batches.push(samples);
    assert(longer.drop_last() =~= batches);
    let (n, width) = (batches.len() as int, 0x1_0000_0000_0000_0000int);
    assert((n % width + 1) % width == (n + 1) % width);
    if accepted(samples) {
        assert forall|k: int| 0 <= k < longer.len() implies accepted(#[trigger] longer[k]) by {
            if k < batches.len() {
                assert(longer[k] == batches[k]);
            }
        }
    }
}

/// The last batch is refused with this message.
pub open spec fn refused(batches: Seq<Seq<RawSample>>, error: String) -> bool {
    &&& batches.len() > 0
    &&& !accepted(batches.last())
    &&& error@ == batch_error(batch_number((batches.len() - 1) as nat), batches.last())
}

/// What is true of the pump and the batches that have come.
spec fn pump_holds(
    state: PumpState,
    batches: Seq<Seq<RawSample>>,
    sent: Seq<Work>,
) -> bool {
    &&& sent + state.works == works_of(batches)
    &&& accepted_before_last(batches)
    &&& state.stage != PumpStage::Over && state.error is None ==> all_accepted(batches)
        && state.batch_id == batch_number(batches.len())
    &&& state.stage != PumpStage::Over ==> (state.error matches Some(error) ==> refused(
        batches,
        error,
    ))
    &&& state.stage == PumpStage::Opening || state.stage == PumpStage::Receiving || state.stage
        == PumpStage::Finishing || state.stage == PumpStage::Ending ==> state.works.len() == 0
        && state.error is None
}

proof fn lemma_goes_on(
    state: PumpState,
    next: PumpState,
    action: PumpAction,
    batches: Seq<Seq<RawSample>>,
    sent: Seq<Work>,
)
    requires
        pump_goes_on(state, next, action),
        state.stage != PumpStage::Over,
        sent + state.works == works_of(batches),
        accepted_before_last(batches),
        state.error is None ==> all_accepted(batches) && state.batch_id == batch_number(
            batches.len(),
        ),
        state.error matches Some(error) ==> refused(batches, error),
    ensures
        action matches PumpAction::Stop(Err(error)) ==> refused(batches, error),
        pump_holds(
            next,
            batches,
            match action {
                PumpAction::Send(work) => sent.push(work),
                _ => sent,
            },
        ),
{
    if state.works.len() > 0 {
        assert(sent.push(state.works[0]) + state.works.drop_first() =~= sent + state.works);
    }
}

proof fn lemma_pump_holds(
    states: Seq<PumpState>,
    events: Seq<PumpEvent>,
    actions: Seq<PumpAction>,
    n: int,
)
    requires
        is_pump_history(states, events, actions),
        0 <= n <= events.len(),
    ensures
        pump_holds(states[n], batches_in(events.take(n)), works_sent(actions.take(n))),
        n > 0 ==> (actions[n - 1] matches PumpAction::Stop(Err(error)) ==> events[n - 1]
            == PumpEvent::Failed(error) || refused(batches_in(events.take(n)), error)),
    decreases n,
{
    if n == 0 {
        assert(works_sent(actions.take(0)) + states[0].works =~= works_of(
            batches_in(events.take(0)),
        ));
    } else {
        lemma_pump_holds(states, events, actions, n - 1);
        let (before, event, after, action) = (
            states[n - 1],
            events[n - 1],
            states[n],
            actions[n - 1],
        );
        assert(pump_expects(before.stage, event) && pump_steps(before, event, after, action));
        assert(events.take(n).drop_last() =~= events.take(n - 1));
        assert(actions.take(n).drop_last() =~= actions.take(n - 1));
        let batches = batches_in(events.take(n - 1));
        let sent = works_sent(actions.take(n - 1));
        if let PumpEvent::Batch(samples) = event {
            let taken = choose|taken: PumpState| #[trigger]
                pump_takes(before, samples@, taken) && pump_goes_on(taken, after, action);
            lemma_batch_taken(batches, samples@, before.batch_id);
            assert(sent + before.works =~= sent);
            lemma_goes_on(taken, after, action, batches.push(samples@), sent);
        } else if before.stage == PumpStage::Sending && event is Sent {
            lemma_goes_on(before, after, action, batches, sent);
        }
    }
}

/// What the workers get: the samples of the batches in the order in which they
/// came, each with the number of its batch and its place in it, up to the first
/// that is refused. Every batch before the last is delivered whole, and none
/// comes after one that is refused.
pub proof fn law_samples_are_sent_in_order(
    states: Seq<PumpState>,
    events: Seq<PumpEvent>,
    actions: Seq<PumpAction>,
)
    requires
        is_pump_history(states, events, actions),
    ensures
        works_sent(actions) + states.last().works == works_of(batches_in(events)),
        batches_in(events).len() > 0 ==> all_accepted(batches_in(events).drop_last()),
        states.last().stage == PumpStage::Receiving || states.last().stage == PumpStage::Finishing
            || states.last().stage == PumpStage::Ending ==> works_sent(actions) == works_of(
            batches_in(events),
        ) && all_accepted(batches_in(events)),
{
    let n = events.len() as int;
    lemma_pump_holds(states, events, actions, n);
    assert(events.take(n) =~= events);
    assert(actions.take(n) =~= actions);
    if states.last().works.len() == 0 {
        assert(works_sent(actions) + states.last().works =~= works_sent(actions));
    }
}

proof fn lemma_end_comes_last(
    states: Seq<PumpState>,
    events: Seq<PumpEvent>,
    actions: Seq<PumpAction>,
    n: int,
    m: int,
)
    requires
        is_pump_history(states, events, actions),
        0 <= n < m <= events.len(),
        actions[n] is SendEnd,
    ensures
        states[m].stage == if m == n + 1 {
            PumpStage::Ending
        } else {
            PumpStage::Over
        },
        m <= n + 2,
        m == n + 2 ==> actions[n + 1] is Stop && (actions[n + 1]->Stop_0 is Ok <==> events[n
            + 1] is Sent),
        batches_in(events.take(m)) == batches_in(events.take(n)),
        works_sent(actions.take(m)) == works_sent(actions.take(n)),
    decreases m,
{
    assert(pump_expects(states[m - 1].stage, events[m - 1]) && pump_steps(
        states[m - 1],
        events[m - 1],
        states[m],
        actions[m - 1],
    ));
    assert(events.take(m).drop_last() =~= events.take(m - 1));
    assert(actions.take(m).drop_last() =~= actions.take(m - 1));
    if m > n + 1 {
        lemma_end_comes_last(states, events, actions, n, m - 1);
    }
}

proof fn lemma_nothing_failed(
    states: Seq<PumpState>,
    events: Seq<PumpEvent>,
    actions: Seq<PumpAction>,
    n: int,
)
    requires
        is_pump_history(states, events, actions),
        0 <= n <= events.len(),
        states[n].stage != PumpStage::Over,
    ensures
        forall|k: int| 0 <= k < n ==> !(#[trigger] events[k] is Failed),
        forall|k: int| 0 <= k < n ==> !(#[trigger] actions[k] is Stop),
        states[n].stage != PumpStage::Ending ==> forall|k: int|
            0 <= k < n ==> !(#[trigger] actions[k] is SendEnd),
        states[n].stage == PumpStage::Finishing ==> n > 0 && events[n - 1] is StreamEnded,
    decreases n,
{
    if n > 0 {
        assert(pump_expects(states[n - 1].stage, events[n - 1]) && pump_steps(
            states[n - 1],
            events[n - 1],
            states[n],
            actions[n - 1],
        ));
        lemma_nothing_failed(states, events, actions, n - 1);
    }
}

/// The workers are told of the end once and last: only when the stream of
/// batches has ended and the requests are finished, with every batch accepted
/// and all of its samples sent, and never after a failure. Only then does the
/// pump end well.
pub proof fn law_end_is_sent_once_and_last(
    states: Seq<PumpState>,
    events: Seq<PumpEvent>,
    actions: Seq<PumpAction>,
    n: int,
)
    requires
        is_pump_history(states, events, actions),
        0 <= n < actions.len(),
        actions[n] is SendEnd,
    ensures
        n > 0 && events[n - 1] is StreamEnded && events[n] is RequestsFinished,
        forall|k: int| 0 <= k < n ==> !(#[trigger] events[k] is Failed),
        forall|k: int| 0 <= k < actions.len() && k != n ==> !(#[trigger] actions[k] is SendEnd),
        forall|k: int| n < k < actions.len() ==> #[trigger] actions[k] is Stop && k == n + 1,
        all_accepted(batches_in(events)),
        works_sent(actions.take(n)) == works_of(batches_in(events)),
        works_sent(actions) == works_sent(actions.take(n)),
{
    let count = events.len() as int;
    assert(pump_expects(states[n].stage, events[n]) && pump_steps(
        states[n],
        events[n],
        states[n + 1],
        actions[n],
    ));
    lemma_nothing_failed(states, events, actions, n);
    lemma_pump_holds(states, events, actions, n);
    assert(works_sent(actions.take(n)) + states[n].works =~= works_sent(actions.take(n)));
    lemma_end_comes_last(states, events, actions, n, count);
    assert(events.take(count) =~= events);
    assert(actions.take(count) =~= actions);
}

/// A pump that ends well has told the workers of the end just before; one that
/// refuses a batch never does, and ends with the message of the refusal or of
/// a failure.
pub proof fn law_refused_batch_ends_the_pump(
    states: Seq<PumpState>,
    events: Seq<PumpEvent>,
    actions: Seq<PumpAction>,
    n: int,
)
    requires
        is_pump_history(states, events, actions),
        0 <= n < actions.len(),
    ensures
        actions[n] matches PumpAction::Stop(Ok(_)) ==> n > 0 && actions[n - 1] is SendEnd,
        actions[n] matches PumpAction::Stop(Err(error)) ==> n + 1 == actions.len() && (events[n]
            == PumpEvent::Failed(error) || refused(batches_in(events), error)),
        !all_accepted(batches_in(events)) ==> !(actions[n] is SendEnd) && !(
        actions[n] matches PumpAction::Stop(Ok(_))),
{
    let count = events.len() as int;
    assert(pump_expects(states[n].stage, events[n]) && pump_steps(
        states[n],
        events[n],
        states[n + 1],
        actions[n],
    ));
    if n + 1 < count {
        assert(pump_expects(states[n + 1].stage, events[n + 1]));
    } else {
        assert(events.take(count) =~= events);
        lemma_pump_holds(states, events, actions, count);
    }
    if n > 0 {
        assert(pump_steps(states[n - 1], events[n - 1], states[n], actions[n - 1]));
        if actions[n - 1] is SendEnd {
            law_end_is_sent_once_and_last(states, events, actions, n - 1);
        }
    }
    if actions[n] is SendEnd {
        law_end_is_sent_once_and_last(states, events, actions, n);
    }
}

/// Every message is its sample: message `i` carries the number of its batch,
/// how many samples the batch has, its own place and the sample's own wave,
/// text, duration, speaker and language.
pub proof fn law_message_is_its_sample(
    batch_id: u64,
    samples: Seq<RawSample>,
    works: Seq<Work>,
    error: Option<String>,
    next: u64,
    i: int,
)
    requires
        expands(batch_id, samples, works, error, next),
        0 <= i < works.len(),
        samples.len() <= usize::MAX,
    ensures
        i < samples.len(),
        works[i] matches Work::Sample { batch, .. } && batch.0 == batch_id && batch.1
            == samples.len(),
        works[i] matches Work::Sample { index, .. } && index == i,
        works[i] matches Work::Sample { wave, .. } && wave@ == samples[i].wave@,
        works[i] matches Work::Sample { text, .. } && text@ == samples[i].text@,
        works[i] matches Work::Sample { duration, .. } && duration == samples[i].duration,
        works[i] matches Work::Sample { speaker_id, .. } && speaker_id == samples[i].speaker_id,
        works[i] matches Work::Sample { language_id, .. } && language_id == samples[i].language_id,
{
    law_sound_batches_are_whole(samples);
}

/// When a batch is accepted: it has samples, and every one of them holds whole
/// 16-bit values and whole 64-bit tokens. Then all are delivered and the next
/// batch has the next number, counted modulo 2^64. Otherwise the samples before
/// the first bad one are delivered, the number stays, and the message names the
/// batch, the sample and what is wrong with it.
pub proof fn law_accepted_and_refused(
    batch_id: u64,
    samples: Seq<RawSample>,
    works: Seq<Work>,
    error: Option<String>,
    next: u64,
)
    requires
        expands(batch_id, samples, works, error, next),
    ensures
        error is None <==> samples.len() > 0 && forall|i: int|
            0 <= i < samples.len() ==> (#[trigger] samples[i]).wave@.len() % 2 == 0
                && samples[i].text@.len() % 8 == 0,
        error is None ==> works.len() == samples.len() && (if batch_id == u64::MAX {
            next == 0
        } else {
            next == batch_id + 1
        }),
        error is Some ==> next == batch_id,
        samples.len() == 0 ==> error is Some && works.len() == 0 && (error->0)@ == "batch "@
            + decimal_spec(batch_id as nat) + ": empty batches are unsupported"@,
        error is Some && samples.len() > 0 ==> {
            let n = works.len() as int;
            &&& n < samples.len()
            &&& forall|i: int|
                0 <= i < n ==> (#[trigger] samples[i]).wave@.len() % 2 == 0
                    && samples[i].text@.len() % 8 == 0
            &&& samples[n].wave@.len() % 2 != 0 || samples[n].text@.len() % 8 != 0
            &&& samples[n].wave@.len() % 2 != 0 ==> (error->0)@ == "batch "@ + decimal_spec(
                batch_id as nat,
            ) + " sample "@ + decimal_spec(n as nat) + ": invalid int16 PCM"@
            &&& samples[n].wave@.len() % 2 == 0 ==> (error->0)@ == "batch "@ + decimal_spec(
                batch_id as nat,
            ) + " sample "@ + decimal_spec(n as nat) + ": invalid int64 tokens"@
        },
{
    law_sound_batches_are_whole(samples);
    assert forall|i: int| 0 <= i < samples.len() && sound(samples[i]) implies (
    #[trigger] samples[i]).wave@.len() % 2 == 0 && samples[i].text@.len() % 8 == 0 by {}
    if forall|i: int|
        0 <= i < samples.len() ==> (#[trigger] samples[i]).wave@.len() % 2 == 0
            && samples[i].text@.len() % 8 == 0 {
        assert(forall|i: int| 0 <= i < samples.len() ==> sound(#[trigger] samples[i]));
    }
}

proof fn lemma_works_of_accepted(batches: Seq<Seq<RawSample>>, k: int)
    requires
        0 <= k < batches.len(),
        all_accepted(batches.drop_last()),
    ensures
        works_of(batches.take(k)).len() == batches.take(k).flatten().len(),
        works_of(batches).len() >= works_of(batches.take(k)).len() + sound_prefix(batches[k]),
        forall|i: int|
            0 <= i < sound_prefix(batches[k]) ==> works_of(batches)[#[trigger] (
            batches.take(k).flatten().len() + i)] == batch_works(batch_number(k as nat), batches[k])[i],
    decreases batches.len(),
{
    let earlier = batches.drop_last();
    if k == batches.len() - 1 {
        assert(batches.take(k) =~= earlier);
        lemma_works_len(earlier);
        assert(works_of(batches) == works_of(earlier) + batch_works(
            batch_number(k as nat),
            batches.last(),
        ));
    } else {
        assert(all_accepted(earlier.drop_last())) by {
            assert forall|j: int| 0 <= j < earlier.drop_last().len() implies accepted(
                #[trigger] earlier.drop_last()[j],
            ) by {
                assert(earlier.drop_last()[j] == earlier[j]);
            }
        }
        lemma_works_of_accepted(earlier, k);
        assert(earlier.take(k) =~= batches.take(k));
        assert(earlier[k] == batches[k]);
        assert forall|i: int| 0 <= i < sound_prefix(batches[k]) implies works_of(
            batches,
        )[#[trigger] (batches.take(k).flatten().len() + i)] == batch_works(
            batch_number(k as nat),
            batches[k],
        )[i] by {
            assert(works_of(earlier)[batches.take(k).flatten().len() + i] == batch_works(
                batch_number(k as nat),
                batches[k],
            )[i]);
        }
    }
}

proof fn lemma_works_len(batches: Seq<Seq<RawSample>>)
    requires
        all_accepted(batches),
    ensures
        works_of(batches).len() == batches.flatten().len(),
    decreases batches.len(),
{
    if batches.len() == 0 {
        assert(batches.flatten() =~= Seq::<RawSample>::empty());
    } else {
        let earlier = batches.drop_last();
        assert(all_accepted(earlier)) by {
            assert forall|j: int| 0 <= j < earlier.len() implies accepted(#[trigger] earlier[j]) by {
                assert(earlier[j] == batches[j]);
            }
        }
        lemma_works_len(earlier);
        assert(batches =~= earlier.push(batches.last()));
        earlier.lemma_flatten_push(batches.last());
        assert(accepted(batches[batches.len() - 1]));
    }
}

/// What the workers get, told from the batches alone: behind the samples of all
/// earlier batches, sample `i` of the batch that came after `k` others goes out
/// with the number `k`, the size of its batch, its place `i`, and its own wave,
/// text, duration, speaker and language, as long as no sample up to it is bad.
pub proof fn law_each_sample_is_sent_as_it_came(
    states: Seq<PumpState>,
    events: Seq<PumpEvent>,
    actions: Seq<PumpAction>,
    k: int,
    i: int,
)
    requires
        is_pump_history(states, events, actions),
        0 <= k < batches_in(events).len(),
        k < 0x1_0000_0000_0000_0000,
        0 <= i < batches_in(events)[k].len() <= usize::MAX,
        forall|j: int|
            0 <= j <= i ==> (#[trigger] batches_in(events)[k][j]).wave@.len() % 2 == 0
                && batches_in(events)[k][j].text@.len() % 8 == 0,
    ensures
        ({
            let sent = works_sent(actions) + states.last().works;
            let place = batches_in(events).take(k).flatten().len() + i;
            let sample = batches_in(events)[k][i];
            &&& place < sent.len()
            &&& sent[place] matches Work::Sample { batch, index, .. } && batch.0 == k && batch.1
                == batches_in(events)[k].len() && index == i
            &&& sent[place] matches Work::Sample { wave, text, .. } && wave@ == sample.wave@
                && text@ == sample.text@
            &&& sent[place] matches Work::Sample { duration, speaker_id, language_id, .. }
                && duration == sample.duration && speaker_id == sample.speaker_id && language_id
                == sample.language_id
        }),
{
    let batches = batches_in(events);
    let samples = batches[k];
    law_samples_are_sent_in_order(states, events, actions);
    lemma_works_of_accepted(batches, k);
    law_sound_batches_are_whole(samples);
    let n = sound_prefix(samples);
    if i >= n {
        assert(sound(samples[n as int]));
    }
    let place = batches.take(k).flatten().len() + i;
    assert(works_of(batches)[place] == batch_works(batch_number(k as nat), samples)[i]);
    assert((k as nat) % 0x1_0000_0000_0000_0000 == k);
}

/// Every event has its answer: an open stream is read, its end has the requests
/// finished, finished requests have the end sent, and a failure stops the pump
/// with its message. A batch is answered with its first sample, or with a stop
/// where that is bad or missing; and as long as samples are left, what follows
/// a sample that was sent is the next one.
pub proof fn law_every_event_has_its_answer(
    states: Seq<PumpState>,
    events: Seq<PumpEvent>,
    actions: Seq<PumpAction>,
    n: int,
)
    requires
        is_pump_history(states, events, actions),
        0 <= n < events.len(),
    ensures
        events[n] is Opened ==> actions[n] is Receive,
        events[n] is StreamEnded ==> actions[n] is FinishRequests,
        events[n] is RequestsFinished ==> actions[n] is SendEnd,
        events[n] matches PumpEvent::Failed(error) ==> actions[n] == PumpAction::Stop(Err(error)),
        events[n] matches PumpEvent::Batch(samples) ==> if samples@.len() > 0
            && samples@[0].wave@.len() % 2 == 0 && samples@[0].text@.len() % 8 == 0 {
            actions[n] matches PumpAction::Send(Work::Sample { wave, text, .. }) && wave@
                == samples@[0].wave@ && text@ == samples@[0].text@
        } else {
            actions[n] matches PumpAction::Stop(Err(_))
        },
        events[n] is Sent && states[n].works.len() > 0 ==> actions[n] == PumpAction::Send(
            states[n].works[0],
        ) && states[n + 1].works == states[n].works.skip(1),
{
    let (before, event, after, action) = (states[n], events[n], states[n + 1], actions[n]);
    assert(pump_expects(before.stage, event) && pump_steps(before, event, after, action));
    lemma_pump_holds(states, events, actions, n);
    if let PumpEvent::Batch(samples) = event {
        let taken = choose|taken: PumpState| #[trigger]
            pump_takes(before, samples@, taken) && pump_goes_on(taken, after, action);
        law_sound_batches_are_whole(samples@);
        if samples@.len() > 0 && sound(samples@[0]) {
            assert(sound_prefix(samples@) > 0);
        }
    }
    assert(before.works.len() > 0 ==> before.works.skip(1) =~= before.works.drop_first());
}

} // verus!
