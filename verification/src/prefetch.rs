//! Keeping loaded batches ready.
//!
//! A prefetcher draws batches from a sampler, has them loaded and queues them
//! until it is cancelled, the sampler is exhausted or nobody takes batches any
//! more. A batch that cannot be loaded is skipped.
use crate::ids::{id_text, id_text_spec, lemma_simple_text_len};
use crate::sampling::{batch_model, speaker_number, Sample, SampleModel, Sampler};
use crate::text::{concat3, join_path, joined, law_path_ends_in_its_name};
use vstd::prelude::*;
use vstd::string::*;

verus! {

/// How many batches are kept ready.
pub const CACHED_BATCHES: usize = 20;

/// A sample with the file that holds its wave.
pub struct PrefetchedSample {
    pub sample: Sample,
    pub path: String,
}

/// A sample as it is served; `duration` holds the bits of a 64-bit float.
pub struct LoadedSample {
    pub wave: Vec<u8>,
    pub duration: u64,
    pub speaker_id: i64,
    pub language_id: i32,
    pub text: Vec<u8>,
}

/// What happened.
pub enum Event {
    /// There is room for one more batch.
    Room,
    /// Nobody takes batches any more.
    Closed,
    /// The prefetcher was cancelled.
    Cancelled,
    /// The batch was loaded.
    Loaded,
    /// The batch could not be loaded.
    NotLoaded,
    /// The batch was queued.
    Queued,
}

/// What to do next.
pub enum Action {
    /// Wait for room.
    Reserve,
    /// Load this batch.
    Load(Vec<Sample>),
    /// Queue the batch that was loaded.
    Queue,
    /// Queue this error.
    QueueError(String),
    /// The prefetcher is done.
    Stop,
}

#[derive(Clone, Copy, Debug, PartialEq, Eq, Structural)]
pub enum Stage {
    Reserving,
    Loading,
    Queueing,
    Stopped,
}

/// An event makes sense at a stage.
pub open spec fn expects(stage: Stage, event: Event) -> bool {
    match stage {
        Stage::Reserving => event is Room || event is Closed || event is Cancelled,
        Stage::Loading => event is Loaded || event is NotLoaded || event is Cancelled,
        Stage::Queueing => event is Queued,
        Stage::Stopped => false,
    }
}

/// The event draws the next batch from the sampler.
pub open spec fn draws(stage: Stage, event: Event) -> bool {
    (stage == Stage::Reserving && event is Room) || (stage == Stage::Loading && event is NotLoaded)
}

/// Draws batches from a sampler.
pub struct Prefetcher<S: Sampler> {
    pub sampler: S,
    pub stage: Stage,
}

/// The next batch was drawn: it is loaded, the sampler is exhausted, or it
/// failed and its message is queued.
pub open spec fn drew<S: Sampler>(
    before: Prefetcher<S>,
    after: Prefetcher<S>,
    action: Action,
) -> bool {
    &&& before.sampler.sound() ==> after.sampler.sound() && !(action is QueueError)
    &&& match action {
        Action::Load(samples) => {
            &&& after.stage == Stage::Loading
            &&& before.sampler.failure() is None
            &&& before.sampler.batch_at(0) == Some(batch_model(samples@))
            &&& forall|i: nat| #[trigger]
                after.sampler.batch_at(i) == before.sampler.batch_at(i + 1)
        },
        Action::Stop => {
            &&& after.stage == Stage::Stopped
            &&& before.sampler.failure() is None
            &&& before.sampler.batch_at(0) is None
            &&& forall|i: nat| #[trigger] after.sampler.batch_at(i) == before.sampler.batch_at(i)
        },
        Action::QueueError(message) => {
            &&& after.stage == Stage::Queueing
            &&& before.sampler.failure() == Some(message@)
        },
        _ => false,
    }
}

/// One step of a prefetcher.
pub open spec fn steps<S: Sampler>(
    before: Prefetcher<S>,
    event: Event,
    after: Prefetcher<S>,
    action: Action,
) -> bool {
    if draws(before.stage, event) {
        drew(before, after, action)
    } else {
        &&& after.sampler == before.sampler
        &&& (after.stage, action) == match event {
            Event::Loaded => (Stage::Queueing, Action::Queue),
            Event::Queued => (Stage::Reserving, Action::Reserve),
            _ => (Stage::Stopped, Action::Stop),
        }
    }
}

impl<S: Sampler> Prefetcher<S> {
    /// A prefetcher that waits for room.
    pub fn new(sampler: S) -> (prefetcher: Prefetcher<S>)
        ensures
            prefetcher.sampler == sampler,
            prefetcher.stage == Stage::Reserving,
    {
        Prefetcher { sampler, stage: Stage::Reserving }
    }

    /// One step: takes what happened and says what to do next.
    pub fn step(&mut self, event: Event) -> (action: Action)
        requires
            expects(old(self).stage, event),
        ensures
            steps(*old(self), event, *final(self), action),
    {
        match event {
            Event::Room => self.draw(),
            Event::NotLoaded => self.draw(),
            Event::Loaded => {
                self.stage = Stage::Queueing;
                Action::Queue
            },
            Event::Queued => {
                self.stage = Stage::Reserving;
                Action::Reserve
            },
            _ => {
                self.stage = Stage::Stopped;
                Action::Stop
            },
        }
    }

    fn draw(&mut self) -> (action: Action)
        ensures
            drew(*old(self), *final(self), action),
    {
        match self.sampler.next_batch() {
            Ok(Some(batch)) => {
                self.stage = Stage::Loading;
                Action::Load(batch)
            },
            Ok(None) => {
                self.stage = Stage::Stopped;
                Action::Stop
            },
            Err(error) => {
                self.stage = Stage::Queueing;
                Action::QueueError(error)
            },
        }
    }
}

/// A prefetcher's history: the states it went through, what happened and what
/// was done.
pub open spec fn is_history<S: Sampler>(
    states: Seq<Prefetcher<S>>,
    events: Seq<Event>,
    actions: Seq<Action>,
) -> bool {
    &&& states.len() == events.len() + 1
    &&& actions.len() == events.len()
    &&& states[0].stage == Stage::Reserving
    &&& forall|i: int|
        #![trigger events[i]]
        0 <= i < events.len() ==> expects(states[i].stage, events[i]) && steps(
            states[i],
            events[i],
            states[i + 1],
            actions[i],
        )
}

/// The batches that were to be loaded, in order.
pub open spec fn loads(actions: Seq<Action>) -> Seq<Seq<SampleModel>>
    decreases actions.len(),
{
    if actions.len() == 0 {
        Seq::empty()
    } else {
        match actions.last() {
            Action::Load(samples) => loads(actions.drop_last()).push(batch_model(samples@)),
            _ => loads(actions.drop_last()),
        }
    }
}

/// The numbers of the batches that were queued, in order: each is that of the
/// batch loaded last.
pub open spec fn queued(actions: Seq<Action>) -> Seq<int>
    decreases actions.len(),
{
    if actions.len() == 0 {
        Seq::empty()
    } else {
        match actions.last() {
            Action::Queue => queued(actions.drop_last()).push(loads(actions.drop_last()).len() - 1),
            _ => queued(actions.drop_last()),
        }
    }
}

/// No batch failed to load.
pub open spec fn all_load(events: Seq<Event>) -> bool {
    forall|i: int| 0 <= i < events.len() ==> !(#[trigger] events[i] is NotLoaded)
}

/// The numbers below a bound.
pub open spec fn numbers_below(bound: int) -> Seq<int> {
    Seq::new(bound as nat, |i: int| i)
}

/// Batches are drawn in the sampler's order, none twice and none passed over;
/// what is queued was drawn and is in that order, none twice; and as long as
/// all of the batches load, every one of them is queued.
pub proof fn law_batches_are_queued_in_order<S: Sampler>(
    states: Seq<Prefetcher<S>>,
    events: Seq<Event>,
    actions: Seq<Action>,
)
    requires
        is_history(states, events, actions),
        states[0].sampler.sound(),
    ensures
        states.last().sampler.sound(),
        forall|i: nat|
            i < loads(actions).len() ==> #[trigger] states[0].sampler.batch_at(i) == Some(
                loads(actions)[i as int],
            ),
        forall|i: nat| #[trigger]
            states.last().sampler.batch_at(i) == states[0].sampler.batch_at(
                i + loads(actions).len(),
            ),
        forall|i: int, j: int|
            0 <= i < j < queued(actions).len() ==> #[trigger] queued(actions)[i]
                < #[trigger] queued(actions)[j],
        forall|i: int|
            0 <= i < queued(actions).len() ==> 0 <= #[trigger] queued(actions)[i] < loads(
                actions,
            ).len(),
        states.last().stage == Stage::Loading ==> loads(actions).len() > 0 && !queued(
            actions,
        ).contains(loads(actions).len() - 1),
        all_load(events) && (states.last().stage == Stage::Reserving || states.last().stage
            == Stage::Queueing) ==> queued(actions) == numbers_below(loads(actions).len() as int),
        all_load(events) && states.last().stage == Stage::Loading ==> queued(actions)
            == numbers_below(loads(actions).len() - 1),
    decreases events.len(),
{
    if events.len() == 0 {
        assert(queued(actions) =~= numbers_below(0));
    } else {
        let n = events.len() - 1;
        let (states_before, events_before, actions_before) = (
            states.drop_last(),
            events.drop_last(),
            actions.drop_last(),
        );
        assert(events[n] == events.last());
        assert forall|i: int|
            #![trigger events_before[i]]
            0 <= i < n implies expects(states_before[i].stage, events_before[i]) && steps(
            states_before[i],
            events_before[i],
            states_before[i + 1],
            actions_before[i],
        ) by {
            assert(events[i] == events_before[i]);
        }
        law_batches_are_queued_in_order(states_before, events_before, actions_before);
        let (first, before, after) = (states[0], states[n], states.last());
        let drawn = loads(actions_before).len();
        assert(states_before.last() == before);
        assert(steps(before, events[n], after, actions[n]));
        if all_load(events) {
            assert forall|i: int| 0 <= i < n implies !(#[trigger] events_before[i] is NotLoaded) by {
                assert(!(events[i] is NotLoaded));
            }
            assert(!(events[n] is NotLoaded));
        }
        if actions.last() is Load {
            assert(before.sampler.batch_at(0) == first.sampler.batch_at(0 + drawn));
            assert forall|i: nat| #[trigger]
                after.sampler.batch_at(i) == first.sampler.batch_at(i + loads(actions).len()) by {
                assert(before.sampler.batch_at(i + 1) == first.sampler.batch_at(i + 1 + drawn));
            }
        }
        if actions.last() is Queue {
            assert(numbers_below(drawn as int) =~= numbers_below(drawn - 1).push(drawn - 1));
            assert forall|i: int, j: int|
                0 <= i < j < queued(actions).len() implies #[trigger] queued(actions)[i]
                < #[trigger] queued(actions)[j] by {
                if j == queued(actions_before).len() {
                    assert(queued(actions_before)[i] < drawn);
                    assert(queued(actions_before).contains(queued(actions_before)[i]));
                }
            }
        }
    }
}

proof fn lemma_loads_grow(actions: Seq<Action>, a: int, b: int)
    requires
        0 <= a <= b <= actions.len(),
    ensures
        loads(actions.take(a)).len() <= loads(actions.take(b)).len(),
        a < b && actions[a] is Load ==> loads(actions.take(a)).len() < loads(actions.take(b)).len(),
    decreases b - a,
{
    if a < b {
        lemma_loads_grow(actions, a, b - 1);
        assert(actions.take(b).drop_last() =~= actions.take(b - 1));
    }
}

/// The batch with this number was queued at step `n`.
spec fn queued_at(actions: Seq<Action>, n: int, number: int) -> bool {
    0 <= n < actions.len() && actions[n] is Queue && loads(actions.take(n)).len() - 1 == number
}

proof fn lemma_queued_at(actions: Seq<Action>, k: int, number: int)
    requires
        0 <= k <= actions.len(),
    ensures
        queued(actions.take(k)).contains(number) <==> exists|n: int| n < k && #[trigger] queued_at(
            actions,
            n,
            number,
        ),
    decreases k,
{
    if k > 0 {
        let (before, after) = (queued(actions.take(k - 1)), queued(actions.take(k)));
        lemma_queued_at(actions, k - 1, number);
        assert(actions.take(k).drop_last() =~= actions.take(k - 1));
        if before.contains(number) {
            let i = before.index_of(number);
            assert(after[i] == number);
        }
        if queued_at(actions, k - 1, number) {
            assert(after[after.len() - 1] == number);
        }
        if after.contains(number) {
            let i = after.index_of(number);
            if i < before.len() {
                assert(before[i] == number);
                let n = choose|n: int| n < k - 1 && #[trigger] queued_at(actions, n, number);
                assert(queued_at(actions, n, number));
            } else {
                assert(queued_at(actions, k - 1, number));
            }
        }
    }
}

proof fn lemma_loading_after_load<S: Sampler>(
    states: Seq<Prefetcher<S>>,
    events: Seq<Event>,
    actions: Seq<Action>,
    n: int,
)
    requires
        is_history(states, events, actions),
        0 <= n <= events.len(),
    ensures
        states[n].stage == Stage::Loading <==> n > 0 && actions[n - 1] is Load,
{
    if n > 0 {
        assert(expects(states[n - 1].stage, events[n - 1]));
        assert(steps(states[n - 1], events[n - 1], states[n], actions[n - 1]));
    }
}

/// The batches that are queued are exactly those that loaded: the one that was
/// to be loaded at step `n` is queued if and only if `Loaded` is what happened
/// next.
pub proof fn law_loaded_batches_are_queued<S: Sampler>(
    states: Seq<Prefetcher<S>>,
    events: Seq<Event>,
    actions: Seq<Action>,
    n: int,
)
    requires
        is_history(states, events, actions),
        0 <= n < actions.len(),
        actions[n] is Load,
    ensures
        queued(actions).contains(loads(actions.take(n)).len() as int) <==> n + 1 < events.len()
            && events[n + 1] is Loaded,
{
    let number = loads(actions.take(n)).len() as int;
    let count = actions.len() as int;
    assert(actions.take(count) =~= actions);
    lemma_queued_at(actions, count, number);
    lemma_loading_after_load(states, events, actions, n + 1);
    assert(actions.take(n + 1).drop_last() =~= actions.take(n));
    if n + 1 < events.len() {
        assert(expects(states[n + 1].stage, events[n + 1]));
        assert(steps(states[n + 1], events[n + 1], states[n + 2], actions[n + 1]));
        if events[n + 1] is Loaded {
            assert(queued_at(actions, n + 1, number));
        }
    }
    if queued(actions).contains(number) {
        let q = choose|q: int| q < count && #[trigger] queued_at(actions, q, number);
        assert(expects(states[q].stage, events[q]));
        assert(steps(states[q], events[q], states[q + 1], actions[q]));
        lemma_loading_after_load(states, events, actions, q);
        assert(actions.take(q).drop_last() =~= actions.take(q - 1));
        if n < q - 1 {
            lemma_loads_grow(actions, n, q - 1);
        } else if q - 1 < n {
            lemma_loads_grow(actions, q - 1, n);
        }
    }
}

/// What happens to a cache of batches.
pub enum Moment {
    /// The prefetcher takes a step.
    Step(Event, Action),
    /// A batch that was queued is taken.
    Taken,
}

/// A cache of batches: its prefetcher, and how many batches are queued and not
/// taken yet. An error that is queued in place of a batch counts like one.
pub struct Cache<S: Sampler> {
    pub prefetcher: Prefetcher<S>,
    pub ready: nat,
}

/// A cache at the beginning.
pub open spec fn empty_cache<S: Sampler>(cache: Cache<S>) -> bool {
    cache.prefetcher.stage == Stage::Reserving && cache.ready == 0
}

/// The event can happen to the prefetcher of a cache: there is room for one
/// more batch only while fewer than `CACHED_BATCHES` are queued and not taken.
pub open spec fn can_happen<S: Sampler>(cache: Cache<S>, event: Event) -> bool {
    &&& expects(cache.prefetcher.stage, event)
    &&& event is Room ==> cache.ready < CACHED_BATCHES
}

/// What a moment does to a cache.
pub open spec fn passes<S: Sampler>(before: Cache<S>, moment: Moment, after: Cache<S>) -> bool {
    match moment {
        Moment::Step(event, action) => {
            &&& can_happen(before, event)
            &&& steps(before.prefetcher, event, after.prefetcher, action)
            &&& after.ready == before.ready + if event is Queued { 1nat } else { 0nat }
        },
        Moment::Taken => {
            &&& before.ready > 0
            &&& after.prefetcher == before.prefetcher
            &&& after.ready == before.ready - 1
        },
    }
}

/// A cache's history.
pub open spec fn is_cache_history<S: Sampler>(
    caches: Seq<Cache<S>>,
    moments: Seq<Moment>,
) -> bool {
    &&& caches.len() == moments.len() + 1
    &&& empty_cache(caches[0])
    &&& forall|i: int|
        #![trigger moments[i]]
        0 <= i < moments.len() ==> passes(caches[i], moments[i], caches[i + 1])
}

/// A cache never holds more than `CACHED_BATCHES` batches that nobody has
/// taken, the one that is being loaded included.
pub proof fn law_cache_is_bounded<S: Sampler>(
    caches: Seq<Cache<S>>,
    moments: Seq<Moment>,
    n: int,
)
    requires
        is_cache_history(caches, moments),
        0 <= n < caches.len(),
    ensures
        caches[n].ready <= CACHED_BATCHES,
        caches[n].prefetcher.stage == Stage::Loading || caches[n].prefetcher.stage
            == Stage::Queueing ==> caches[n].ready < CACHED_BATCHES,
    decreases n,
{
    if n > 0 {
        law_cache_is_bounded(caches, moments, n - 1);
        assert(passes(caches[n - 1], moments[n - 1], caches[n]));
    }
}

/// Nothing is taken, everything loads, and nobody ends the prefetcher.
pub open spec fn undisturbed(moments: Seq<Moment>) -> bool {
    forall|i: int|
        0 <= i < moments.len() ==> (#[trigger] moments[i] matches Moment::Step(event, _) && !(
        event is NotLoaded || event is Cancelled || event is Closed))
}

/// What happens next to a prefetcher whose batches load.
pub open spec fn next_event(stage: Stage) -> Event {
    match stage {
        Stage::Reserving => Event::Room,
        Stage::Loading => Event::Loaded,
        _ => Event::Queued,
    }
}

/// The sampler's batch number `i` is loaded, and then queued.
pub open spec fn fills<S: Sampler>(sampler: S, moments: Seq<Moment>, i: nat) -> bool {
    &&& moments[3 * i as int] matches Moment::Step(_, Action::Load(samples))
    &&& sampler.batch_at(i) == Some(batch_model(samples@))
    &&& moments[3 * i as int + 1] matches Moment::Step(Event::Loaded, Action::Queue)
    &&& moments[3 * i as int + 2] matches Moment::Step(Event::Queued, _)
}

/// Left alone, a cache fills with exactly the first `CACHED_BATCHES` batches of
/// its sampler, each in three steps: until then there is always a next step,
/// and then there is none.
pub proof fn law_cache_fills<S: Sampler>(caches: Seq<Cache<S>>, moments: Seq<Moment>)
    requires
        is_cache_history(caches, moments),
        undisturbed(moments),
        caches[0].prefetcher.sampler.sound(),
        forall|i: nat|
            i < CACHED_BATCHES ==> #[trigger] caches[0].prefetcher.sampler.batch_at(i) is Some,
    ensures
        moments.len() <= 3 * CACHED_BATCHES,
        caches.last().ready == moments.len() / 3,
        forall|i: nat|
            3 * i + 2 < moments.len() ==> #[trigger] fills(
                caches[0].prefetcher.sampler,
                moments,
                i,
            ),
        moments.len() < 3 * CACHED_BATCHES ==> can_happen(
            caches.last(),
            next_event(caches.last().prefetcher.stage),
        ),
        moments.len() == 3 * CACHED_BATCHES ==> {
            &&& caches.last().ready == CACHED_BATCHES
            &&& caches.last().prefetcher.stage == Stage::Reserving
            &&& !can_happen(caches.last(), Event::Room)
        },
{
    let sampler = caches[0].prefetcher.sampler;
    lemma_filling(caches, moments, moments.len() as int);
    assert forall|i: nat| 3 * i + 2 < moments.len() implies #[trigger] fills(
        sampler,
        moments,
        i,
    ) by {
        let k = 3 * i as int;
        lemma_filling(caches, moments, k);
        lemma_filling(caches, moments, k + 1);
        lemma_filling(caches, moments, k + 2);
        assert(passes(caches[k], moments[k], caches[k + 1]));
        assert(passes(caches[k + 1], moments[k + 1], caches[k + 2]));
        assert(passes(caches[k + 2], moments[k + 2], caches[k + 3]));
        assert(caches[k].prefetcher.sampler.batch_at(0) == sampler.batch_at(0 + i));
    }
}

/// The stage of a prefetcher that was left alone, after `n` steps.
spec fn filling_stage(n: int) -> Stage {
    if n % 3 == 0 {
        Stage::Reserving
    } else if n % 3 == 1 {
        Stage::Loading
    } else {
        Stage::Queueing
    }
}

/// The later sampler gives what the first gives after `drawn` batches.
spec fn is_ahead<S: Sampler>(first: S, later: S, drawn: nat) -> bool {
    forall|i: nat| #[trigger] later.batch_at(i) == first.batch_at(i + drawn)
}

proof fn lemma_one_ahead<S: Sampler>(first: S, before: S, after: S, drawn: nat)
    requires
        is_ahead(first, before, drawn),
        is_ahead(before, after, 1),
    ensures
        is_ahead(first, after, drawn + 1),
{
    assert forall|i: nat| #[trigger] after.batch_at(i) == first.batch_at(i + (drawn + 1)) by {
        assert(after.batch_at(i) == before.batch_at(i + 1));
        assert(before.batch_at(i + 1) == first.batch_at(i + 1 + drawn));
        assert(i + 1 + drawn == i + (drawn + 1));
    }
}

/// One step of a prefetcher that is left alone and has a batch to draw: its
/// stage, how many batches are ready, and whether one was drawn.
proof fn lemma_filling_step<S: Sampler>(
    before: Cache<S>,
    event: Event,
    action: Action,
    after: Cache<S>,
    n: int,
)
    requires
        passes(before, Moment::Step(event, action), after),
        !(event is NotLoaded || event is Cancelled || event is Closed),
        0 <= n,
        before.prefetcher.stage == filling_stage(n),
        before.ready == n / 3,
        before.prefetcher.sampler.sound(),
        n % 3 == 0 && n / 3 < CACHED_BATCHES ==> before.prefetcher.sampler.batch_at(0) is Some,
    ensures
        n < 3 * CACHED_BATCHES || n % 3 != 0,
        after.prefetcher.stage == filling_stage(n + 1),
        after.ready == (n + 1) / 3,
        after.prefetcher.sampler.sound(),
        n % 3 == 0 ==> is_ahead(before.prefetcher.sampler, after.prefetcher.sampler, 1),
        n % 3 != 0 ==> after.prefetcher.sampler == before.prefetcher.sampler,
{
}

proof fn lemma_filling<S: Sampler>(caches: Seq<Cache<S>>, moments: Seq<Moment>, n: int)
    requires
        is_cache_history(caches, moments),
        undisturbed(moments),
        caches[0].prefetcher.sampler.sound(),
        forall|i: nat|
            i < CACHED_BATCHES ==> #[trigger] caches[0].prefetcher.sampler.batch_at(i) is Some,
        0 <= n < caches.len(),
    ensures
        n <= 3 * CACHED_BATCHES,
        caches[n].ready == n / 3,
        caches[n].prefetcher.sampler.sound(),
        caches[n].prefetcher.stage == filling_stage(n),
        is_ahead(
            caches[0].prefetcher.sampler,
            caches[n].prefetcher.sampler,
            ((n + 2) / 3) as nat,
        ),
    decreases n,
{
    if n > 0 {
        lemma_filling(caches, moments, n - 1);
        let (first, before, after) = (caches[0].prefetcher.sampler, caches[n - 1], caches[n]);
        let drawn = ((n + 1) / 3) as nat;
        assert(passes(before, moments[n - 1], after));
        assert(before.prefetcher.sampler.batch_at(0) == first.batch_at(0 + drawn));
        if let Moment::Step(event, action) = moments[n - 1] {
            lemma_filling_step(before, event, action, after, n - 1);
        }
        if (n - 1) % 3 == 0 {
            lemma_one_ahead(first, before.prefetcher.sampler, after.prefetcher.sampler, drawn);
        }
    }
}

/// The file of a cached wave: the audio and a fresh identifier.
pub open spec fn cache_file_spec(cache_dir: Seq<char>, audio_id: u128, fresh: u128) -> Seq<char> {
    joined(cache_dir, id_text_spec(audio_id) + "-"@ + id_text_spec(fresh) + ".raw"@)
}

/// The file in which the wave of a sample is cached.
pub fn cache_file(cache_dir: &str, audio_id: u128, fresh: u128) -> (path: String)
    ensures
        path@ == cache_file_spec(cache_dir@, audio_id, fresh),
{
    let mut name = concat3(id_text(audio_id).as_str(), "-", id_text(fresh).as_str());
    name.append(".raw");
    join_path(cache_dir, name.as_str())
}

/// The sample that is served for a prefetched one, with its wave.
pub fn read_sample(sample: Sample, wave: Vec<u8>) -> (loaded: LoadedSample)
    ensures
        loaded.wave@ == wave@,
        loaded.duration == sample.duration,
        loaded.speaker_id == sample.speaker_id as i64,
        sample.speaker_id <= i64::MAX ==> loaded.speaker_id == sample.speaker_id,
        loaded.language_id == sample.language_id,
        loaded.text@ == sample.text@,
{
    LoadedSample {
        wave,
        duration: sample.duration,
        speaker_id: sample.speaker_id as i64,
        language_id: sample.language_id,
        text: sample.text,
    }
}

/// A speaker number is served as it is: it is below 2^63.
pub proof fn law_speaker_number_is_kept(digest: Seq<u8>)
    ensures
        speaker_number(digest) as i64 == speaker_number(digest),
{
}

/// Every event has its answer: room, and a batch that does not load, draw the
/// sampler's next batch to load, or stop where there is none; a batch that is
/// loaded is queued, after which there is room to be waited for; and nobody to
/// take batches, and being cancelled, stop the prefetcher.
pub proof fn law_every_event_has_its_answer<S: Sampler>(
    before: Prefetcher<S>,
    event: Event,
    after: Prefetcher<S>,
    action: Action,
)
    requires
        expects(before.stage, event),
        steps(before, event, after, action),
    ensures
        event is Loaded ==> action is Queue,
        event is Queued ==> action is Reserve,
        event is Closed || event is Cancelled ==> action is Stop,
        (event is Room || event is NotLoaded) && before.sampler.sound() ==> match before.sampler.batch_at(
            0,
        ) {
            Some(batch) => action matches Action::Load(samples) && batch_model(samples@) == batch,
            None => action is Stop,
        },
        (event is Room || event is NotLoaded) ==> (action matches Action::QueueError(message)
            ==> before.sampler.failure() == Some(message@)),
        (event is Room || event is NotLoaded) && before.sampler.failure() is Some
            ==> action is QueueError,
        action is Stop <==> after.stage == Stage::Stopped,
        !(event is Room || event is NotLoaded) ==> after.sampler == before.sampler,
{
}

/// Twenty batches are kept ready.
pub proof fn law_cache_size()
    ensures
        CACHED_BATCHES == 20,
{
}

/// The file of a cached wave stands in the cache directory, and its name is the
/// audio's identifier, a hyphen, the fresh identifier and `.raw`.
pub proof fn law_cache_file_name(cache_dir: Seq<char>, audio_id: u128, fresh: u128)
    ensures
        ({
            let path = cache_file_spec(cache_dir, audio_id, fresh);
            let name = path.skip(path.len() - 77);
            &&& path.len() >= 77 && path.len() >= cache_dir.len() + 77
            &&& path.take(cache_dir.len() as int) == cache_dir
            &&& name.take(36) == id_text_spec(audio_id)
            &&& name[36] == '-'
            &&& name.subrange(37, 73) == id_text_spec(fresh)
            &&& name.skip(73) == seq!['.', 'r', 'a', 'w']
        }),
{
    reveal_strlit("-");
    reveal_strlit(".raw");
    lemma_simple_text_len(audio_id);
    lemma_simple_text_len(fresh);
    let name = id_text_spec(audio_id) + "-"@ + id_text_spec(fresh) + ".raw"@;
    let path = cache_file_spec(cache_dir, audio_id, fresh);
    lemma_hex_first(audio_id);
    assert(name.len() == 77);
    assert(name[0] == id_text_spec(audio_id)[0]);
    law_path_ends_in_its_name(cache_dir, name);
    assert(path.skip(path.len() - 77) == name);
    assert(name.take(36) =~= id_text_spec(audio_id));
    assert(name.subrange(37, 73) =~= id_text_spec(fresh));
    assert(name.skip(73) =~= seq!['.', 'r', 'a', 'w']);
    assert(path.take(cache_dir.len() as int) =~= cache_dir);
}

proof fn lemma_hex_first(id: u128)
    ensures
        id_text_spec(id).len() == 36,
        id_text_spec(id)[0] != '/',
{
    lemma_simple_text_len(id);
    crate::ids::lemma_be_bytes_len(id as nat, 16);
    crate::text::law_hexadecimal_digits(crate::ids::be_bytes(id as nat, 16), 0);
    assert(id_text_spec(id)[0] == crate::ids::simple_text(id)[0]);
}

} // verus!
