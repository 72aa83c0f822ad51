//! The budget of batches under way: a named counting semaphore and the flag
//! that cancels it.
use crate::ids::{id_simple_text, lemma_simple_text_len, simple_text};
use crate::text::concat2;
use vstd::prelude::*;
use vstd::string::*;

verus! {

/// How many digits of an identifier a semaphore's name holds.
pub const NAME_DIGITS: usize = 20;

/// A semaphore's capacity must be positive and fit its counter.
pub fn checked_capacity(capacity: usize) -> (value: Result<u32, String>)
    ensures
        match value {
            Ok(value) => capacity > 0 && value == capacity,
            Err(message) => if capacity == 0 {
                message@ == "semaphore capacity must be positive"@
            } else {
                capacity > u32::MAX && message@ == "semaphore capacity too large"@
            },
        },
{
    if capacity == 0 {
        return Err("semaphore capacity must be positive".to_owned());
    }
    if capacity > 0xffff_ffff {
        return Err("semaphore capacity too large".to_owned());
    }
    Ok(capacity as u32)
}

/// The name of a semaphore with this fresh identifier.
pub fn semaphore_name(fresh: u128) -> (name: String)
    ensures
        name@ == "/tl-"@ + simple_text(fresh).take(NAME_DIGITS as int),
        name@ == "/tl-"@ + simple_text(fresh).take(20),
{
    let digits = id_simple_text(fresh);
    proof {
        lemma_simple_text_len(fresh);
    }
    let first = digits.as_str().substring_char(0, NAME_DIGITS);
    assert(first@ =~= simple_text(fresh).take(NAME_DIGITS as int));
    concat2("/tl-", first)
}

/// How a wait on the semaphore went.
#[derive(Clone, Copy, Debug, PartialEq, Eq, Structural)]
pub enum Waited {
    Acquired,
    Interrupted,
    Failed,
}

/// What to do after a wait.
#[derive(Clone, Copy, Debug, PartialEq, Eq, Structural)]
pub enum AfterWait {
    Done,
    WaitAgain,
    GiveUp,
}

/// A wait that a signal interrupted is taken up again; any other failure ends
/// it.
pub fn after_wait(waited: Waited) -> (next: AfterWait)
    ensures
        next == match waited {
            Waited::Acquired => AfterWait::Done,
            Waited::Interrupted => AfterWait::WaitAgain,
            Waited::Failed => AfterWait::GiveUp,
        },
{
    match waited {
        Waited::Acquired => AfterWait::Done,
        Waited::Interrupted => AfterWait::WaitAgain,
        Waited::Failed => AfterWait::GiveUp,
    }
}

/// A cancelled budget grants nothing. The flag is read before the wait for a
/// slot and again after it.
pub fn acquire(cancelled: bool) -> (granted: bool)
    ensures
        granted == !cancelled,
{
    !cancelled
}

/// Cancelling frees a slot unless the budget was cancelled before.
pub open spec fn frees_slot(was_cancelled: bool) -> bool {
    !was_cancelled
}

/// Cancelling frees one slot, to wake the producer, and does so once.
pub fn cancel(was_cancelled: bool) -> (post: bool)
    ensures
        post == frees_slot(was_cancelled),
        post <==> !was_cancelled,
{
    !was_cancelled
}

/// What the producer of requests is doing.
#[derive(Clone, Copy, Debug, PartialEq, Eq, Structural)]
pub enum Producer {
    /// It reads the flag before it asks for a slot.
    Asking,
    /// It waits for a slot.
    Waiting,
    /// It has a slot and reads the flag once more.
    Checking,
    /// It has a slot and sends a request.
    Sending,
    /// It has ended.
    Ended,
}

/// What happens to the producer of requests.
pub enum ProducerEvent {
    /// The flag was read: whether the budget is cancelled.
    Flag(bool),
    /// The wait got a slot.
    Acquired,
    /// The wait failed, with this message.
    WaitFailed(String),
    /// The request was sent.
    Sent,
    /// Nobody takes requests any more.
    Refused,
}

/// What the producer of requests does next.
pub enum ProducerAction {
    /// Read the flag.
    ReadFlag,
    /// Wait for a slot.
    Wait,
    /// Send a request.
    Send,
    /// End, with this result.
    Stop(Result<(), String>),
}

/// The producer of requests: it sends one for every slot that it gets.
pub struct RequestProducer {
    pub stage: Producer,
}

/// An event makes sense while the producer does this.
pub open spec fn producer_expects(stage: Producer, event: ProducerEvent) -> bool {
    match stage {
        Producer::Asking | Producer::Checking => event is Flag,
        Producer::Waiting => event is Acquired || event is WaitFailed,
        Producer::Sending => event is Sent || event is Refused,
        Producer::Ended => false,
    }
}

/// What an event leads to.
pub open spec fn producer_step(
    stage: Producer,
    event: ProducerEvent,
) -> (Producer, ProducerAction) {
    match event {
        ProducerEvent::Flag(cancelled) => if cancelled {
            (Producer::Ended, ProducerAction::Stop(Ok(())))
        } else if stage == Producer::Asking {
            (Producer::Waiting, ProducerAction::Wait)
        } else {
            (Producer::Sending, ProducerAction::Send)
        },
        ProducerEvent::Acquired => (Producer::Checking, ProducerAction::ReadFlag),
        ProducerEvent::WaitFailed(error) => (Producer::Ended, ProducerAction::Stop(Err(error))),
        ProducerEvent::Sent => (Producer::Asking, ProducerAction::ReadFlag),
        ProducerEvent::Refused => (Producer::Ended, ProducerAction::Stop(Ok(()))),
    }
}

impl RequestProducer {
    /// A producer that begins, with its first step.
    pub fn new() -> (started: (RequestProducer, ProducerAction))
        ensures
            started.0.stage == Producer::Asking,
            started.1 == ProducerAction::ReadFlag,
    {
        (RequestProducer { stage: Producer::Asking }, ProducerAction::ReadFlag)
    }

    /// One step: takes what happened and says what to do next.
    pub fn step(&mut self, event: ProducerEvent) -> (action: ProducerAction)
        requires
            producer_expects(old(self).stage, event),
        ensures
            (final(self).stage, action) == producer_step(old(self).stage, event),
    {
        match event {
            ProducerEvent::Flag(cancelled) => {
                if !acquire(cancelled) {
                    self.stage = Producer::Ended;
                    ProducerAction::Stop(Ok(()))
                } else if self.stage == Producer::Asking {
                    self.stage = Producer::Waiting;
                    ProducerAction::Wait
                } else {
                    self.stage = Producer::Sending;
                    ProducerAction::Send
                }
            },
            ProducerEvent::Acquired => {
                self.stage = Producer::Checking;
                ProducerAction::ReadFlag
            },
            ProducerEvent::WaitFailed(error) => {
                self.stage = Producer::Ended;
                ProducerAction::Stop(Err(error))
            },
            ProducerEvent::Sent => {
                self.stage = Producer::Asking;
                ProducerAction::ReadFlag
            },
            ProducerEvent::Refused => {
                self.stage = Producer::Ended;
                ProducerAction::Stop(Ok(()))
            },
        }
    }
}

/// What happens to a budget.
pub enum Event {
    /// The producer takes a step.
    Producer(ProducerEvent),
    /// A rank has received a batch and frees a slot.
    Post,
    /// The budget is cancelled.
    Cancel,
}

/// A budget: free slots, the flag, the producer, and the requests it has sent.
pub struct Budget {
    pub slots: nat,
    pub cancelled: bool,
    pub producer: Producer,
    pub requests: nat,
}

/// An event is possible: the producer reads the flag as it is, and gets a slot
/// only where one is free.
pub open spec fn possible(budget: Budget, event: Event) -> bool {
    match event {
        Event::Producer(step) => {
            &&& producer_expects(budget.producer, step)
            &&& (step matches ProducerEvent::Flag(cancelled) ==> cancelled == budget.cancelled)
            &&& (step is Acquired ==> budget.slots > 0)
        },
        Event::Post => true,
        Event::Cancel => true,
    }
}

/// What an event does.
pub open spec fn happens(budget: Budget, event: Event) -> Budget {
    match event {
        Event::Producer(step) => Budget {
            slots: (budget.slots - if step is Acquired { 1int } else { 0int }) as nat,
            producer: producer_step(budget.producer, step).0,
            requests: budget.requests + if step is Sent { 1nat } else { 0nat },
            ..budget
        },
        Event::Post => Budget { slots: budget.slots + 1, ..budget },
        Event::Cancel => Budget {
            cancelled: true,
            slots: budget.slots + if frees_slot(budget.cancelled) { 1nat } else { 0nat },
            ..budget
        },
    }
}

/// A budget after some events, all of them possible.
pub open spec fn after_events(capacity: nat, events: Seq<Event>) -> Option<Budget>
    decreases events.len(),
{
    if events.len() == 0 {
        Some(
            Budget { slots: capacity, cancelled: false, producer: Producer::Asking, requests: 0 },
        )
    } else {
        match after_events(capacity, events.drop_last()) {
            Some(budget) => if possible(budget, events.last()) {
                Some(happens(budget, events.last()))
            } else {
                None
            },
            None => None,
        }
    }
}

/// How many batches the ranks have received.
pub open spec fn posts(events: Seq<Event>) -> nat
    decreases events.len(),
{
    if events.len() == 0 {
        0
    } else {
        posts(events.drop_last()) + if events.last() is Post { 1nat } else { 0nat }
    }
}

/// The slots that the producer has taken and not used yet.
pub open spec fn slots_held(producer: Producer) -> nat {
    if producer == Producer::Checking || producer == Producer::Sending { 1 } else { 0 }
}

/// The budget holds: at no time are more requests under way than the capacity
/// allows, that is, requests never outrun received batches by more than it.
/// No slot is lost or made up but the one that cancelling frees.
pub proof fn law_budget_is_kept(capacity: nat, events: Seq<Event>)
    requires
        after_events(capacity, events) is Some,
    ensures
        ({
            let budget = after_events(capacity, events)->0;
            let freed = posts(events) + if budget.cancelled { 1nat } else { 0nat };
            &&& budget.requests <= capacity + posts(events)
            &&& budget.producer == Producer::Sending ==> budget.requests < capacity + posts(events)
            &&& budget.producer != Producer::Ended ==> budget.slots + budget.requests + slots_held(
                budget.producer,
            ) == capacity + freed
        }),
    decreases events.len(),
{
    if events.len() > 0 {
        law_budget_is_kept(capacity, events.drop_last());
        lemma_cancelled_has_slot(capacity, events.drop_last());
    }
}

/// Cancelling wakes the producer: once cancelled, a producer that waits finds
/// a free slot, and it ends without another request.
pub proof fn law_cancel_wakes_the_producer(capacity: nat, events: Seq<Event>)
    requires
        after_events(capacity, events) is Some,
        (after_events(capacity, events)->0).cancelled,
        (after_events(capacity, events)->0).producer == Producer::Waiting,
    ensures
        ({
            let budget = after_events(capacity, events)->0;
            let woken = happens(budget, Event::Producer(ProducerEvent::Acquired));
            let last = Event::Producer(ProducerEvent::Flag(true));
            &&& possible(budget, Event::Producer(ProducerEvent::Acquired))
            &&& possible(woken, last)
            &&& happens(woken, last).producer == Producer::Ended
            &&& happens(woken, last).requests == budget.requests
        }),
{
    lemma_cancelled_has_slot(capacity, events);
}

proof fn lemma_cancelled_has_slot(capacity: nat, events: Seq<Event>)
    requires
        after_events(capacity, events) is Some,
    ensures
        ({
            let budget = after_events(capacity, events)->0;
            budget.cancelled && (budget.producer == Producer::Asking || budget.producer
                == Producer::Waiting || budget.producer == Producer::Sending) ==> budget.slots > 0
        }),
    decreases events.len(),
{
    if events.len() > 0 {
        lemma_cancelled_has_slot(capacity, events.drop_last());
    }
}

/// A request is sent only by a producer that has a slot and has read, with the
/// slot in hand, that the budget is not cancelled; a slot is waited for only
/// when the flag says the same. A cancelled budget and nobody to take requests
/// end the producer well, and a failed wait ends it with its error.
pub proof fn law_request_needs_a_slot(stage: Producer, event: ProducerEvent)
    requires
        producer_expects(stage, event),
    ensures
        producer_step(stage, event).1 is Send <==> stage == Producer::Checking && event
            == ProducerEvent::Flag(false),
        producer_step(stage, event).1 is Wait <==> stage == Producer::Asking && event
            == ProducerEvent::Flag(false),
        event is Acquired ==> producer_step(stage, event) == (
            Producer::Checking,
            ProducerAction::ReadFlag,
        ),
        event is Sent ==> producer_step(stage, event) == (
            Producer::Asking,
            ProducerAction::ReadFlag,
        ),
        event == ProducerEvent::Flag(true) ==> producer_step(stage, event).1
            == ProducerAction::Stop(Ok(())),
        event is Refused ==> producer_step(stage, event).1 == ProducerAction::Stop(Ok(())),
        event matches ProducerEvent::WaitFailed(error) ==> producer_step(stage, event).1
            == ProducerAction::Stop(Err(error)),
        producer_step(stage, event).1 is Stop <==> producer_step(stage, event).0 == Producer::Ended,
{
}

} // verus!
