//! Initializing a recorded run, with its status kept up to date.
use crate::run_manager::RunStatus;
use crate::status::{Code, Status};
use vstd::prelude::*;

verus! {

/// What happened.
pub enum Event {
    /// The run was looked up: its training configuration, if there is such a
    /// run.
    Found(Option<String>),
    /// The last action was carried out.
    Done,
    /// The last action failed, with this message.
    Failed(String),
}

/// What to do next.
pub enum Action {
    /// Look the run up.
    Lookup,
    /// Record that the run has this status.
    AppendStatus(RunStatus),
    /// Fetch the assets and set the state of the run up.
    SetUp,
    /// The run is initialized; this is its training configuration.
    Initialized(String),
    /// The run is refused.
    Refuse(Status),
}

/// How far an initialization has come.
pub enum Stage {
    LookingUp,
    /// Recording that the run with this training configuration is running.
    Announcing(String),
    /// Setting up the run with this training configuration.
    SettingUp(String),
    /// Recording the failure with this message.
    Recording(String),
    Over,
}

/// An initialization.
pub struct Initialization {
    pub stage: Stage,
}

/// An event makes sense at a stage.
pub open spec fn expects(stage: Stage, event: Event) -> bool {
    match stage {
        Stage::LookingUp => event is Found || event is Failed,
        Stage::Over => false,
        _ => event is Done || event is Failed,
    }
}

/// What an event leads to. A run that cannot be set up is recorded as failed,
/// whether or not that succeeds, and refused.
pub open spec fn steps(stage: Stage, event: Event, next: Stage, action: Action) -> bool {
    match (stage, event) {
        (Stage::LookingUp, Event::Found(Some(train_config))) => {
            &&& next == Stage::Announcing(train_config)
            &&& action == Action::AppendStatus(RunStatus::Running)
        },
        (Stage::LookingUp, Event::Found(None)) => {
            &&& next is Over
            &&& action matches Action::Refuse(status)
            &&& status.says(Code::NotFound, "unknown run"@)
        },
        (Stage::Announcing(train_config), Event::Done) => {
            &&& next == Stage::SettingUp(train_config)
            &&& action == Action::SetUp
        },
        (Stage::SettingUp(train_config), Event::Done) => {
            &&& next is Over
            &&& action == Action::Initialized(train_config)
        },
        (Stage::SettingUp(_), Event::Failed(message)) => {
            &&& next == Stage::Recording(message)
            &&& action == Action::AppendStatus(RunStatus::Failed)
        },
        (Stage::Recording(message), _) => {
            &&& next is Over
            &&& action == Action::Refuse((Status { code: Code::Internal, message }))
        },
        (_, Event::Failed(message)) => {
            &&& next is Over
            &&& action == Action::Refuse((Status { code: Code::Internal, message }))
        },
        _ => false,
    }
}

impl Initialization {
    /// An initialization begins, with its first step.
    pub fn new() -> (started: (Initialization, Action))
        ensures
            started.0.stage is LookingUp,
            started.1 == Action::Lookup,
    {
        (Initialization { stage: Stage::LookingUp }, Action::Lookup)
    }

    /// One step: takes what happened and says what to do next.
    pub fn step(&mut self, event: Event) -> (action: Action)
        requires
            expects(old(self).stage, event),
        ensures
            steps(old(self).stage, event, final(self).stage, action),
    {
        let mut stage = Stage::Over;
        std::mem::swap(&mut stage, &mut self.stage);
        match (stage, event) {
            (Stage::LookingUp, Event::Found(Some(train_config))) => {
                self.stage = Stage::Announcing(train_config);
                Action::AppendStatus(RunStatus::Running)
            },
            (Stage::LookingUp, Event::Found(None)) => Action::Refuse(
                Status::not_found("unknown run"),
            ),
            (Stage::Announcing(train_config), Event::Done) => {
                self.stage = Stage::SettingUp(train_config);
                Action::SetUp
            },
            (Stage::SettingUp(train_config), Event::Done) => Action::Initialized(train_config),
            (Stage::SettingUp(_), Event::Failed(message)) => {
                self.stage = Stage::Recording(message);
                Action::AppendStatus(RunStatus::Failed)
            },
            (Stage::Recording(message), _) => Action::Refuse(Status::internal(message)),
            (_, Event::Failed(message)) => Action::Refuse(Status::internal(message)),
            _ => Action::Lookup,
        }
    }
}

/// An initialization's history: the stages it went through, what happened and
/// what was done.
pub open spec fn is_history(stages: Seq<Stage>, events: Seq<Event>, actions: Seq<Action>) -> bool {
    &&& stages.len() == events.len() + 1
    &&& actions.len() == events.len()
    &&& stages[0] is LookingUp
    &&& forall|i: int|
        #![trigger events[i]]
        0 <= i < events.len() ==> expects(stages[i], events[i]) && steps(
            stages[i],
            events[i],
            stages[i + 1],
            actions[i],
        )
}

/// The run was to be set up.
pub open spec fn was_set_up(actions: Seq<Action>) -> bool {
    exists|i: int| 0 <= i < actions.len() && #[trigger] actions[i] is SetUp
}

/// A run that was to be set up and is refused has been recorded as failed just
/// before; one that is initialized has not.
pub proof fn law_failure_is_recorded(stages: Seq<Stage>, events: Seq<Event>, actions: Seq<Action>)
    requires
        is_history(stages, events, actions),
        events.len() > 0,
    ensures
        actions.last() is Refuse && was_set_up(actions) ==> events.len() > 1
            && actions[events.len() - 2] == Action::AppendStatus(RunStatus::Failed),
        actions.last() is Initialized ==> was_set_up(actions) && !actions.contains(
            Action::AppendStatus(RunStatus::Failed),
        ),
{
    lemma_recorded(stages, events, actions, events.len() as int);
    lemma_recorded(stages, events, actions, events.len() - 1);
    let n = events.len() - 1;
    assert(steps(stages[n], events[n], stages[n + 1], actions[n]));
    assert(actions.take(n + 1) =~= actions);
    if was_set_up(actions) {
        let i = choose|i: int| 0 <= i < actions.len() && #[trigger] actions[i] is SetUp;
        if i < n {
            assert(actions.take(n)[i] is SetUp);
        }
    }
    if actions.last() is Initialized {
        let i = choose|i: int| 0 <= i < n && #[trigger] actions.take(n)[i] is SetUp;
        assert(actions[i] is SetUp);
        assert(!actions.take(n).contains(Action::AppendStatus(RunStatus::Failed)));
        assert forall|k: int| 0 <= k < actions.len() implies #[trigger] actions[k]
            != Action::AppendStatus(RunStatus::Failed) by {
            if k < n {
                assert(actions.take(n)[k] == actions[k]);
            }
        }
    }
}

proof fn lemma_recorded(stages: Seq<Stage>, events: Seq<Event>, actions: Seq<Action>, n: int)
    requires
        is_history(stages, events, actions),
        0 <= n <= events.len(),
    ensures
        stages[n] is LookingUp || stages[n] is Announcing ==> !was_set_up(actions.take(n)),
        stages[n] is SettingUp ==> was_set_up(actions.take(n)),
        stages[n] is LookingUp || stages[n] is Announcing || stages[n] is SettingUp
            ==> !actions.take(n).contains(Action::AppendStatus(RunStatus::Failed)),
        stages[n] is Recording ==> n > 0 && actions[n - 1] == Action::AppendStatus(
            RunStatus::Failed,
        ),
    decreases n,
{
    if n > 0 {
        lemma_recorded(stages, events, actions, n - 1);
        assert(steps(stages[n - 1], events[n - 1], stages[n], actions[n - 1]));
        let (before, after) = (actions.take(n - 1), actions.take(n));
        assert(after =~= before.push(actions[n - 1]));
        assert(after[n - 1] == actions[n - 1]);
        assert forall|i: int| 0 <= i < n - 1 implies #[trigger] after[i] == before[i] by {
        }
    }
}

/// A run is initialized in this order: once it is found it is recorded as
/// running, then it is set up, and then its own training configuration is
/// handed back.
pub proof fn law_initialized_in_order(
    stages: Seq<Stage>,
    events: Seq<Event>,
    actions: Seq<Action>,
    n: int,
)
    requires
        is_history(stages, events, actions),
        0 <= n < events.len(),
    ensures
        n == 0 ==> (events[0] matches Event::Found(Some(_)) ==> actions[0] == Action::AppendStatus(
            RunStatus::Running,
        )),
        n == 1 && events[1] is Done ==> actions[1] is SetUp,
        n == 2 && actions[1] is SetUp && events[2] is Done ==> actions[2] is Initialized,
        actions[n] matches Action::Initialized(train_config) ==> n == 2 && events[0]
            == Event::Found(Some(train_config)) && events[1] is Done && events[2] is Done,
        actions[n] matches Action::AppendStatus(status) ==> (n == 0 && status == RunStatus::Running)
            || (n == 2 && status == RunStatus::Failed && events[2] is Failed),
        actions[n] is Initialized || actions[n] is Refuse ==> n + 1 == events.len(),
{
    lemma_stage_at(stages, events, actions, n);
    assert(expects(stages[n], events[n]) && steps(stages[n], events[n], stages[n + 1], actions[n]));
    if n > 0 {
        lemma_stage_at(stages, events, actions, n - 1);
        assert(expects(stages[n - 1], events[n - 1]) && steps(
            stages[n - 1],
            events[n - 1],
            stages[n],
            actions[n - 1],
        ));
    }
    if n + 1 < events.len() {
        assert(expects(stages[n + 1], events[n + 1]));
    }
}

proof fn lemma_stage_at(stages: Seq<Stage>, events: Seq<Event>, actions: Seq<Action>, n: int)
    requires
        is_history(stages, events, actions),
        0 <= n < stages.len(),
    ensures
        stages[n] is LookingUp <==> n == 0,
        stages[n] matches Stage::Announcing(train_config) ==> n == 1 && events[0] == Event::Found(
            Some(train_config),
        ),
        stages[n] matches Stage::SettingUp(train_config) ==> n == 2 && events[0] == Event::Found(
            Some(train_config),
        ) && events[1] is Done,
        stages[n] is Recording ==> n == 3,
    decreases n,
{
    if n > 0 {
        lemma_stage_at(stages, events, actions, n - 1);
        assert(expects(stages[n - 1], events[n - 1]) && steps(
            stages[n - 1],
            events[n - 1],
            stages[n],
            actions[n - 1],
        ));
    }
}

/// A run that is refused is refused for a reason: a run that does not exist is
/// not found, and anything else is the failure that was met, with its message,
/// at once or after the run was recorded as failed.
pub proof fn law_refused_for_a_reason(
    stages: Seq<Stage>,
    events: Seq<Event>,
    actions: Seq<Action>,
    n: int,
)
    requires
        is_history(stages, events, actions),
        0 <= n < events.len(),
    ensures
        events[n] matches Event::Found(None) ==> (actions[n] matches Action::Refuse(status)
            && status.code == Code::NotFound && status.message@ == "unknown run"@),
        actions[n] matches Action::Refuse(status) ==> {
            ||| events[n] matches Event::Found(None)
            ||| status.code == Code::Internal && events[n] == Event::Failed(status.message)
            ||| status.code == Code::Internal && n > 0 && events[n - 1] == Event::Failed(
                status.message,
            ) && actions[n - 1] == Action::AppendStatus(RunStatus::Failed)
        },
        events[n] is Failed ==> actions[n] is Refuse || actions[n] == Action::AppendStatus(
            RunStatus::Failed,
        ),
        actions[n] == Action::AppendStatus(RunStatus::Failed) && n + 1 < events.len() ==> actions[n
            + 1] is Refuse,
{
    assert(expects(stages[n], events[n]) && steps(stages[n], events[n], stages[n + 1], actions[n]));
    if n + 1 < events.len() {
        assert(expects(stages[n + 1], events[n + 1]) && steps(
            stages[n + 1],
            events[n + 1],
            stages[n + 2],
            actions[n + 1],
        ));
    }
    if n > 0 {
        assert(expects(stages[n - 1], events[n - 1]) && steps(
            stages[n - 1],
            events[n - 1],
            stages[n],
            actions[n - 1],
        ));
    }
}

} // verus!
