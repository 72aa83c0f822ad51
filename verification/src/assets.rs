//! Assets that the training side fetches when its run starts.
use crate::text::{decimal, decimal_spec, join_path, joined};
use vstd::prelude::*;
use vstd::string::*;

verus! {

/// How many assets are fetched at once.
pub const CONCURRENT_DOWNLOADS: usize = 4;

/// A message of an asset stream.
pub enum Payload {
    Metadata,
    Chunk(Vec<u8>),
}

/// What happened.
pub enum Event {
    /// A message came; `None` where it held no payload.
    Message(Option<Payload>),
    /// The stream closed.
    End,
    /// The last action was carried out.
    Done,
    /// The stream or the last action failed.
    Failed(String),
}

/// What to do next.
pub enum Action {
    /// Wait for the next message.
    Receive,
    /// Create the directory and the part file.
    Create,
    /// Append bytes to the part file.
    Write(Vec<u8>),
    /// Flush the part file and give it its final name.
    Publish,
    /// The asset is there.
    Finished,
    /// The asset cannot be had.
    Fail(String),
}

#[derive(Clone, Copy, Debug, PartialEq, Eq, Structural)]
pub enum Stage {
    Opening,
    Creating,
    Receiving,
    Writing,
    Publishing,
    Over,
}

/// An event makes sense at a stage.
pub open spec fn expects(stage: Stage, event: Event) -> bool {
    match stage {
        Stage::Opening => event is Message || event is End || event is Failed,
        Stage::Receiving => event is Message || event is End || event is Failed,
        Stage::Over => false,
        _ => event is Done || event is Failed,
    }
}

/// What an event leads to: a description first, then nothing but bytes.
pub open spec fn steps(stage: Stage, event: Event, next: Stage, action: Action) -> bool {
    match (stage, event) {
        (_, Event::Failed(error)) => next == Stage::Over && action == Action::Fail(error),
        (Stage::Opening, Event::Message(Some(Payload::Metadata))) => next == Stage::Creating
            && action == Action::Create,
        (Stage::Opening, _) => next == Stage::Over && (action matches Action::Fail(message)
            && message@ == "asset stream must start with metadata"@),
        (Stage::Receiving, Event::Message(Some(Payload::Chunk(bytes)))) => next == Stage::Writing
            && action == Action::Write(bytes),
        (Stage::Receiving, Event::End) => next == Stage::Publishing && action == Action::Publish,
        (Stage::Receiving, _) => next == Stage::Over && (action matches Action::Fail(message)
            && message@ == "expected an asset chunk"@),
        (Stage::Publishing, _) => next == Stage::Over && action == Action::Finished,
        _ => next == Stage::Receiving && action == Action::Receive,
    }
}

/// The download of one asset.
pub struct Download {
    pub stage: Stage,
}

impl Download {
    /// A download that waits for its description.
    pub fn new() -> (download: Download)
        ensures
            download.stage == Stage::Opening,
    {
        Download { stage: Stage::Opening }
    }

    /// One step: takes what happened and says what to do next.
    pub fn step(&mut self, event: Event) -> (action: Action)
        requires
            expects(old(self).stage, event),
        ensures
            steps(old(self).stage, event, final(self).stage, action),
    {
        match (self.stage, event) {
            (_, Event::Failed(error)) => {
                self.stage = Stage::Over;
                Action::Fail(error)
            },
            (Stage::Opening, Event::Message(Some(Payload::Metadata))) => {
                self.stage = Stage::Creating;
                Action::Create
            },
            (Stage::Opening, _) => {
                self.stage = Stage::Over;
                Action::Fail("asset stream must start with metadata".to_owned())
            },
            (Stage::Receiving, Event::Message(Some(Payload::Chunk(bytes)))) => {
                self.stage = Stage::Writing;
                Action::Write(bytes)
            },
            (Stage::Receiving, Event::End) => {
                self.stage = Stage::Publishing;
                Action::Publish
            },
            (Stage::Receiving, _) => {
                self.stage = Stage::Over;
                Action::Fail("expected an asset chunk".to_owned())
            },
            (Stage::Publishing, _) => {
                self.stage = Stage::Over;
                Action::Finished
            },
            _ => {
                self.stage = Stage::Receiving;
                Action::Receive
            },
        }
    }
}

/// The directory of an asset: its place in the list of assets.
pub open spec fn destination_spec(root: Seq<char>, index: nat) -> Seq<char> {
    joined(joined(root, "assets"@), decimal_spec(index))
}

/// The directory into which an asset is fetched.
pub fn destination(root: &str, index: usize) -> (path: String)
    ensures
        path@ == destination_spec(root@, index as nat),
{
    join_path(join_path(root, "assets").as_str(), decimal(index as u64).as_str())
}

/// Where an asset is written while it arrives.
pub fn partial_path(destination: &str) -> (path: String)
    ensures
        path@ == joined(destination@, "download.part"@),
{
    join_path(destination, "download.part")
}

/// Where an asset is when it has arrived.
pub fn final_path(destination: &str) -> (path: String)
    ensures
        path@ == joined(destination@, "data"@),
{
    join_path(destination, "data")
}

/// A download's history.
pub open spec fn is_history(stages: Seq<Stage>, events: Seq<Event>, actions: Seq<Action>) -> bool {
    &&& stages.len() == events.len() + 1
    &&& actions.len() == events.len()
    &&& stages[0] == Stage::Opening
    &&& forall|i: int|
        #![trigger events[i]]
        0 <= i < events.len() ==> expects(stages[i], events[i]) && steps(
            stages[i],
            events[i],
            stages[i + 1],
            actions[i],
        )
}

/// The bytes that came, in order.
pub open spec fn bytes_received(events: Seq<Event>) -> Seq<u8>
    decreases events.len(),
{
    if events.len() == 0 {
        Seq::empty()
    } else {
        match events.last() {
            Event::Message(Some(Payload::Chunk(bytes))) => bytes_received(events.drop_last())
                + bytes@,
            _ => bytes_received(events.drop_last()),
        }
    }
}

/// The bytes that were written, in order.
pub open spec fn bytes_written(actions: Seq<Action>) -> Seq<u8>
    decreases actions.len(),
{
    if actions.len() == 0 {
        Seq::empty()
    } else {
        match actions.last() {
            Action::Write(bytes) => bytes_written(actions.drop_last()) + bytes@,
            _ => bytes_written(actions.drop_last()),
        }
    }
}

/// An asset that is given its name holds all the bytes that came, in order.
pub proof fn law_asset_arrives_whole(stages: Seq<Stage>, events: Seq<Event>, actions: Seq<Action>)
    requires
        is_history(stages, events, actions),
    ensures
        stages.last() != Stage::Over ==> bytes_written(actions) == bytes_received(events),
        stages.last() == Stage::Opening || stages.last() == Stage::Creating ==> bytes_received(
            events,
        ) == Seq::<u8>::empty(),
        events.len() > 0 && actions.last() is Finished ==> bytes_written(actions)
            == bytes_received(events),
    decreases events.len(),
{
    if events.len() > 0 {
        let n = events.len() - 1;
        assert(events[n] == events.last());
        assert forall|i: int|
            #![trigger events.drop_last()[i]]
            0 <= i < n implies expects(stages.drop_last()[i], events.drop_last()[i]) && steps(
            stages.drop_last()[i],
            events.drop_last()[i],
            stages.drop_last()[i + 1],
            actions.drop_last()[i],
        ) by {
            assert(events[i] == events.drop_last()[i]);
        }
        law_asset_arrives_whole(stages.drop_last(), events.drop_last(), actions.drop_last());
        assert(stages.drop_last().last() == stages[n]);
    }
}

/// Every event has its answer: a stream must begin with the description and go
/// on with chunks, which are written as they came; its end has the asset given
/// its name; and whatever fails ends the download with its message.
pub proof fn law_every_event_has_its_answer(
    stages: Seq<Stage>,
    events: Seq<Event>,
    actions: Seq<Action>,
    n: int,
)
    requires
        is_history(stages, events, actions),
        0 <= n < events.len(),
    ensures
        events[n] matches Event::Failed(error) ==> actions[n] == Action::Fail(error),
        n == 0 && (events[0] is Message || events[0] is End) ==> if events[0] == Event::Message(
            Some(Payload::Metadata),
        ) {
            actions[0] is Create
        } else {
            actions[0] matches Action::Fail(message) && message@
                == "asset stream must start with metadata"@
        },
        n > 0 ==> (events[n] matches Event::Message(message) ==> match message {
            Some(Payload::Chunk(bytes)) => actions[n] == Action::Write(bytes),
            _ => actions[n] matches Action::Fail(text) && text@ == "expected an asset chunk"@,
        }),
        n > 0 && events[n] is End ==> actions[n] is Publish,
        events[n] is Done ==> n > 0 && (if actions[n - 1] is Publish {
            actions[n] is Finished
        } else {
            actions[n] is Receive
        }),
        actions[n] is Finished || actions[n] is Fail ==> n + 1 == events.len(),
{
    assert(expects(stages[n], events[n]) && steps(stages[n], events[n], stages[n + 1], actions[n]));
    lemma_opening_is_first(stages, events, actions, n);
    if n > 0 {
        assert(expects(stages[n - 1], events[n - 1]) && steps(
            stages[n - 1],
            events[n - 1],
            stages[n],
            actions[n - 1],
        ));
    }
    if n + 1 < events.len() {
        assert(expects(stages[n + 1], events[n + 1]));
    }
}

proof fn lemma_opening_is_first(
    stages: Seq<Stage>,
    events: Seq<Event>,
    actions: Seq<Action>,
    n: int,
)
    requires
        is_history(stages, events, actions),
        0 <= n < stages.len(),
    ensures
        stages[n] == Stage::Opening <==> n == 0,
{
    if n > 0 {
        assert(expects(stages[n - 1], events[n - 1]) && steps(
            stages[n - 1],
            events[n - 1],
            stages[n],
            actions[n - 1],
        ));
    }
}

/// An asset's directory is `assets` and its number in the list, below the root.
pub proof fn law_destination_tells_the_place(root: Seq<char>, index: nat)
    requires
        root.len() > 0,
        root.last() != '/',
    ensures
        destination_spec(root, index) == root + seq!['/'] + "assets"@ + seq!['/'] + decimal_spec(
            index,
        ),
        crate::text::decimal_value(decimal_spec(index)) == index,
{
    reveal_strlit("assets");
    crate::text::law_decimal_numeral(index);
    crate::text::law_path_ends_in_its_name(root, "assets"@);
    let dir = joined(root, "assets"@);
    assert(dir.last() == 's');
    let name = decimal_spec(index);
    assert('0' <= name[0] <= '9');
    crate::text::law_path_ends_in_its_name(dir, name);
}

} // verus!
