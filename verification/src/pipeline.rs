//! The data pipeline of one split: a window of requests kept open.
use vstd::prelude::*;

verus! {

/// The two splits of the data.
#[derive(Clone, Copy, Debug, PartialEq, Eq, Structural)]
pub enum Split {
    Training,
    Validation,
}

impl Split {
    /// The number of a split on the wire.
    pub open spec fn number(self) -> i32 {
        match self {
            Split::Training => 0,
            Split::Validation => 1,
        }
    }

    /// The number of a split on the wire.
    pub fn code(self) -> (code: i32)
        ensures
            code == self.number(),
            self is Training ==> code == 0,
            self is Validation ==> code == 1,
    {
        match self {
            Split::Training => 0,
            Split::Validation => 1,
        }
    }

    /// The split that is asked for.
    pub fn of(validation: bool) -> (split: Split)
        ensures
            split == if validation { Split::Validation } else { Split::Training },
    {
        if validation { Split::Validation } else { Split::Training }
    }
}

/// A request for one batch.
pub struct DataRequest {
    pub run_id: String,
    pub split: i32,
}

/// What happened.
pub enum Event {
    /// A batch came from the server.
    Response,
    /// The server has no more batches.
    ResponsesEnded,
    /// The batch was processed, well or not.
    Processed,
    /// Processing could not be carried out at all.
    ProcessorLost(String),
    /// The batch was handed on.
    Delivered,
    /// Nobody takes batches any more.
    OutputClosed,
    /// The request was sent.
    Requested,
    /// The server takes no more requests.
    RequestsClosed,
    /// The pipeline was cancelled.
    Cancelled,
}

/// What to do next.
pub enum Action {
    /// Wait for a batch.
    AwaitResponse,
    /// Process the batch.
    Process,
    /// Hand the batch on.
    Deliver,
    /// Ask for one more batch.
    Request,
    /// The pipeline is over.
    Stop(Result<(), String>),
}

#[derive(Clone, Copy, Debug, PartialEq, Eq, Structural)]
pub enum Stage {
    Waiting,
    Processing,
    Delivering,
    Requesting,
    Stopped,
}

/// A pipeline that keeps `prefetch` requests open.
pub struct Pipeline {
    pub run_id: String,
    pub validation: bool,
    pub prefetch: usize,
    pub stage: Stage,
    pub requests_open: bool,
}

/// An event makes sense at a stage; cancelling does while waiting for a batch
/// and while handing one on.
pub open spec fn expects(stage: Stage, event: Event) -> bool {
    match stage {
        Stage::Waiting => event is Response || event is ResponsesEnded || event is Cancelled,
        Stage::Processing => event is Processed || event is ProcessorLost,
        Stage::Delivering => event is Delivered || event is OutputClosed || event is Cancelled,
        Stage::Requesting => event is Requested || event is RequestsClosed,
        Stage::Stopped => false,
    }
}

/// One step, over the stage and whether requests are still taken.
pub open spec fn step_spec(stage: Stage, requests_open: bool, event: Event) -> (Stage, bool, Action) {
    match (stage, event) {
        (Stage::Waiting, Event::Response) => (Stage::Processing, requests_open, Action::Process),
        (Stage::Processing, Event::Processed) => (Stage::Delivering, requests_open, Action::Deliver),
        (Stage::Processing, Event::ProcessorLost(error)) => (
            Stage::Stopped,
            requests_open,
            Action::Stop(Err(error)),
        ),
        (Stage::Delivering, Event::Delivered) => if requests_open {
            (Stage::Requesting, true, Action::Request)
        } else {
            (Stage::Waiting, false, Action::AwaitResponse)
        },
        (Stage::Requesting, Event::Requested) => (Stage::Waiting, true, Action::AwaitResponse),
        (Stage::Requesting, _) => (Stage::Waiting, false, Action::AwaitResponse),
        _ => (Stage::Stopped, requests_open, Action::Stop(Ok(()))),
    }
}

impl Pipeline {
    /// A request is under way only while requests are taken.
    pub open spec fn wf(self) -> bool {
        self.stage == Stage::Requesting ==> self.requests_open
    }

    /// A pipeline that waits for its first batch.
    pub fn new(run_id: String, validation: bool, prefetch: usize) -> (pipeline: Pipeline)
        requires
            prefetch > 0,
        ensures
            pipeline.wf(),
            pipeline == (Pipeline {
                run_id,
                validation,
                prefetch,
                stage: Stage::Waiting,
                requests_open: true,
            }),
    {
        Pipeline { run_id, validation, prefetch, stage: Stage::Waiting, requests_open: true }
    }

    /// The request for a batch of this pipeline's run and split.
    pub fn request(&self) -> (request: DataRequest)
        ensures
            request.run_id@ == self.run_id@,
            self.validation ==> request.split == 1,
            !self.validation ==> request.split == 0,
            request.split == if self.validation {
                Split::Validation.number()
            } else {
                Split::Training.number()
            },
    {
        DataRequest { run_id: self.run_id.clone(), split: Split::of(self.validation).code() }
    }

    /// The requests that open the window.
    pub fn first_requests(&self) -> (requests: Vec<DataRequest>)
        ensures
            requests@.len() == self.prefetch,
            forall|i: int|
                0 <= i < requests@.len() ==> {
                    &&& (#[trigger] requests@[i]).run_id@ == self.run_id@
                    &&& requests@[i].split == if self.validation {
                        Split::Validation.number()
                    } else {
                        Split::Training.number()
                    }
                },
    {
        let mut requests: Vec<DataRequest> = Vec::new();
        let mut i: usize = 0;
        while i < self.prefetch
            invariant
                i <= self.prefetch,
                requests@.len() == i,
                forall|k: int|
                    0 <= k < requests@.len() ==> {
                        &&& (#[trigger] requests@[k]).run_id@ == self.run_id@
                        &&& requests@[k].split == if self.validation {
                            Split::Validation.number()
                        } else {
                            Split::Training.number()
                        }
                    },
            decreases self.prefetch - i,
        {
            requests.push(self.request());
            i = i + 1;
        }
        requests
    }

    /// One step: takes what happened and says what to do next.
    pub fn step(&mut self, event: Event) -> (action: Action)
        requires
            old(self).wf(),
            expects(old(self).stage, event),
        ensures
            final(self).wf(),
            final(self).run_id == old(self).run_id,
            final(self).validation == old(self).validation,
            final(self).prefetch == old(self).prefetch,
            (final(self).stage, final(self).requests_open, action) == step_spec(
                old(self).stage,
                old(self).requests_open,
                event,
            ),
    {
        match (self.stage, event) {
            (Stage::Waiting, Event::Response) => {
                self.stage = Stage::Processing;
                Action::Process
            },
            (Stage::Processing, Event::Processed) => {
                self.stage = Stage::Delivering;
                Action::Deliver
            },
            (Stage::Processing, Event::ProcessorLost(error)) => {
                self.stage = Stage::Stopped;
                Action::Stop(Err(error))
            },
            (Stage::Delivering, Event::Delivered) => {
                if self.requests_open {
                    self.stage = Stage::Requesting;
                    Action::Request
                } else {
                    self.stage = Stage::Waiting;
                    Action::AwaitResponse
                }
            },
            (Stage::Requesting, Event::Requested) => {
                self.stage = Stage::Waiting;
                Action::AwaitResponse
            },
            (Stage::Requesting, _) => {
                self.requests_open = false;
                self.stage = Stage::Waiting;
                Action::AwaitResponse
            },
            _ => {
                self.stage = Stage::Stopped;
                Action::Stop(Ok(()))
            },
        }
    }
}

/// How the pipeline ends when both of its halves have: a failure to receive
/// counts before one to process.
pub fn pipeline_result(
    received: Result<(), String>,
    processed: Result<(), String>,
) -> (result: Result<(), String>)
    ensures
        result == match received {
            Err(error) => Err::<(), String>(error),
            Ok(()) => processed,
        },
{
    match received {
        Err(error) => Err(error),
        Ok(()) => processed,
    }
}

/// What happens to the half of a pipeline that receives batches.
pub enum ReceiveEvent {
    /// A batch came.
    Message,
    /// The stream has ended.
    Ended,
    /// The stream failed, with this message.
    Failed(String),
    /// The batch was handed over to the other half.
    HandedOver,
    /// The other half takes no more batches.
    Refused,
    /// The pipeline was cancelled.
    Cancelled,
}

/// What the receiving half does next.
pub enum ReceiveAction {
    /// Wait for a batch.
    Await,
    /// Hand the batch over.
    HandOver,
    /// End, well or with this error.
    End(Result<(), String>),
}

#[derive(Clone, Copy, Debug, PartialEq, Eq, Structural)]
pub enum ReceiveStage {
    Awaiting,
    HandingOver,
    Over,
}

/// The half of a pipeline that receives batches.
pub struct Receiving {
    pub stage: ReceiveStage,
}

/// An event makes sense at a stage of the receiving half.
pub open spec fn receive_expects(stage: ReceiveStage, event: ReceiveEvent) -> bool {
    match stage {
        ReceiveStage::Awaiting => event is Message || event is Ended || event is Failed
            || event is Cancelled,
        ReceiveStage::HandingOver => event is HandedOver || event is Refused || event is Cancelled,
        ReceiveStage::Over => false,
    }
}

/// Batches are handed over one by one. A stream that fails ends the half with
/// its error; anything else that ends it ends it well.
pub open spec fn receive_steps(
    stage: ReceiveStage,
    event: ReceiveEvent,
) -> (ReceiveStage, ReceiveAction) {
    match event {
        ReceiveEvent::Message => (ReceiveStage::HandingOver, ReceiveAction::HandOver),
        ReceiveEvent::HandedOver => (ReceiveStage::Awaiting, ReceiveAction::Await),
        ReceiveEvent::Failed(error) => (ReceiveStage::Over, ReceiveAction::End(Err(error))),
        _ => (ReceiveStage::Over, ReceiveAction::End(Ok(()))),
    }
}

impl Receiving {
    /// The receiving half begins, with its first step.
    pub fn new() -> (started: (Receiving, ReceiveAction))
        ensures
            started.0.stage == ReceiveStage::Awaiting,
            started.1 == ReceiveAction::Await,
    {
        (Receiving { stage: ReceiveStage::Awaiting }, ReceiveAction::Await)
    }

    /// One step: takes what happened and says what to do next.
    pub fn step(&mut self, event: ReceiveEvent) -> (action: ReceiveAction)
        requires
            receive_expects(old(self).stage, event),
        ensures
            (final(self).stage, action) == receive_steps(old(self).stage, event),
    {
        match event {
            ReceiveEvent::Message => {
                self.stage = ReceiveStage::HandingOver;
                ReceiveAction::HandOver
            },
            ReceiveEvent::HandedOver => {
                self.stage = ReceiveStage::Awaiting;
                ReceiveAction::Await
            },
            ReceiveEvent::Failed(error) => {
                self.stage = ReceiveStage::Over;
                ReceiveAction::End(Err(error))
            },
            _ => {
                self.stage = ReceiveStage::Over;
                ReceiveAction::End(Ok(()))
            },
        }
    }
}

/// A pipeline's history, over stages and the openness of requests.
pub open spec fn is_history(
    states: Seq<(Stage, bool)>,
    events: Seq<Event>,
    actions: Seq<Action>,
) -> bool {
    &&& states.len() == events.len() + 1
    &&& actions.len() == events.len()
    &&& states[0] == (Stage::Waiting, true)
    &&& forall|i: int|
        #![trigger events[i]]
        0 <= i < events.len() ==> expects(states[i].0, events[i]) && step_spec(
            states[i].0,
            states[i].1,
            events[i],
        ) == (states[i + 1].0, states[i + 1].1, actions[i])
}

/// How many requests were sent beyond the first window.
pub open spec fn requests_sent(events: Seq<Event>) -> nat
    decreases events.len(),
{
    if events.len() == 0 {
        0
    } else {
        requests_sent(events.drop_last()) + if events.last() is Requested { 1nat } else { 0nat }
    }
}

/// How many batches were handed on.
pub open spec fn batches_delivered(events: Seq<Event>) -> nat
    decreases events.len(),
{
    if events.len() == 0 {
        0
    } else {
        batches_delivered(events.drop_last()) + if events.last() is Delivered { 1nat } else { 0nat }
    }
}

/// How many batches came.
pub open spec fn batches_received(events: Seq<Event>) -> nat
    decreases events.len(),
{
    if events.len() == 0 {
        0
    } else {
        batches_received(events.drop_last()) + if events.last() is Response { 1nat } else { 0nat }
    }
}

/// The window stays as it was opened: a request follows a delivered batch and
/// nothing else, so that requests never outrun deliveries by more than the
/// first window, and while requests are taken the window is full whenever the
/// pipeline waits. No batch is handed on that did not come.
pub proof fn law_window_of_requests(
    states: Seq<(Stage, bool)>,
    events: Seq<Event>,
    actions: Seq<Action>,
)
    requires
        is_history(states, events, actions),
    ensures
        requests_sent(events) <= batches_delivered(events) <= batches_received(events)
            <= batches_delivered(events) + 1,
        states.last() == (Stage::Waiting, true) ==> requests_sent(events) == batches_delivered(
            events,
        ),
        states.last() == (Stage::Processing, true) || states.last() == (Stage::Delivering, true)
            ==> requests_sent(events) == batches_delivered(events),
        states.last().0 == Stage::Requesting ==> states.last().1 && requests_sent(events) + 1
            == batches_delivered(events),
        states.last().0 == Stage::Waiting || states.last().0 == Stage::Requesting
            ==> batches_received(events) == batches_delivered(events),
        states.last().0 == Stage::Processing || states.last().0 == Stage::Delivering
            ==> batches_received(events) == batches_delivered(events) + 1,
    decreases events.len(),
{
    if events.len() > 0 {
        let n = events.len() - 1;
        assert(events[n] == events.last());
        assert forall|i: int|
            #![trigger events.drop_last()[i]]
            0 <= i < n implies expects(states.drop_last()[i].0, events.drop_last()[i])
            && step_spec(
            states.drop_last()[i].0,
            states.drop_last()[i].1,
            events.drop_last()[i],
        ) == (states.drop_last()[i + 1].0, states.drop_last()[i + 1].1, actions.drop_last()[i]) by {
            assert(events[i] == events.drop_last()[i]);
        }
        law_window_of_requests(states.drop_last(), events.drop_last(), actions.drop_last());
        assert(states.drop_last().last() == states[n]);
    }
}

/// Every event has its answer: a batch that comes is processed, one that is
/// processed is handed on, and one that was handed on is made up for by a
/// request, as long as requests are taken. Once the server takes no more
/// requests none is made. A processor that is lost ends the pipeline with its
/// message; the end of the batches, nobody to take them, and being cancelled
/// end it well.
pub proof fn law_every_event_has_its_answer(
    states: Seq<(Stage, bool)>,
    events: Seq<Event>,
    actions: Seq<Action>,
    n: int,
)
    requires
        is_history(states, events, actions),
        0 <= n < events.len(),
    ensures
        events[n] is Response ==> actions[n] is Process,
        events[n] is Processed ==> actions[n] is Deliver,
        events[n] is Delivered ==> if exists|k: int|
            0 <= k < n && #[trigger] events[k] is RequestsClosed {
            actions[n] is AwaitResponse
        } else {
            actions[n] is Request
        },
        events[n] is Requested || events[n] is RequestsClosed ==> actions[n] is AwaitResponse,
        events[n] matches Event::ProcessorLost(error) ==> actions[n] == Action::Stop(Err(error)),
        events[n] is ResponsesEnded || events[n] is OutputClosed || events[n] is Cancelled
            ==> actions[n] == Action::Stop(Ok(())),
        actions[n] is Stop ==> n + 1 == events.len(),
{
    assert(expects(states[n].0, events[n]) && step_spec(states[n].0, states[n].1, events[n]) == (
        states[n + 1].0,
        states[n + 1].1,
        actions[n],
    ));
    lemma_requests_taken(states, events, actions, n);
    if n + 1 < events.len() {
        assert(expects(states[n + 1].0, events[n + 1]));
    }
}

proof fn lemma_requests_taken(
    states: Seq<(Stage, bool)>,
    events: Seq<Event>,
    actions: Seq<Action>,
    n: int,
)
    requires
        is_history(states, events, actions),
        0 <= n < states.len(),
    ensures
        states[n].1 <==> !exists|k: int| 0 <= k < n && #[trigger] events[k] is RequestsClosed,
        states[n].0 == Stage::Requesting ==> states[n].1,
    decreases n,
{
    if n > 0 {
        lemma_requests_taken(states, events, actions, n - 1);
        assert(expects(states[n - 1].0, events[n - 1]) && step_spec(
            states[n - 1].0,
            states[n - 1].1,
            events[n - 1],
        ) == (states[n].0, states[n].1, actions[n - 1]));
    }
}

/// Every batch that the receiving half gets is handed over before the next is
/// awaited; a stream that fails ends the half with its error, and only that
/// does.
pub proof fn law_receiving_half(stage: ReceiveStage, event: ReceiveEvent)
    requires
        receive_expects(stage, event),
    ensures
        event is Message ==> receive_steps(stage, event).1 is HandOver,
        event is HandedOver ==> receive_steps(stage, event).1 is Await,
        event matches ReceiveEvent::Failed(error) ==> receive_steps(stage, event).1
            == ReceiveAction::End(Err(error)),
        event is Ended || event is Refused || event is Cancelled ==> receive_steps(stage, event).1
            == ReceiveAction::End(Ok(())),
        receive_steps(stage, event).1 is Await <==> receive_steps(stage, event).0
            == ReceiveStage::Awaiting,
        receive_steps(stage, event).1 is HandOver <==> receive_steps(stage, event).0
            == ReceiveStage::HandingOver,
        receive_steps(stage, event).1 is End <==> receive_steps(stage, event).0
            == ReceiveStage::Over,
{
}

/// Training is number zero on the wire, and validation number one.
pub proof fn law_split_numbers(split: Split)
    ensures
        split is Training <==> split.number() == 0,
        split is Validation <==> split.number() == 1,
{
}

} // verus!
