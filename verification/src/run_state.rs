//! Setting a run up and answering its requests for batches.
use crate::config::{
    law_first_of_a_name_is_found, max_seconds_spec, place_of, total_batches_spec, DataConfig,
};
use crate::ids::{id_text, id_text_spec};
use crate::sampling::{
    grouped, law_grouping_keeps_every_row, rows_error, QuerySampler, RepeatingQuerySampler,
    SampleModel, SampleRow,
};
use crate::text::{
    concat2, concat3, decimal, decimal_spec, join_path, joined, law_path_ends_in_its_name,
};
use vstd::prelude::*;
use vstd::string::*;

verus! {

/// The value of a query parameter; `Seconds` holds the bits of 32-bit floats.
pub enum ParamValue {
    Number(u64),
    Numbers(Vec<u64>),
    Seconds(u32),
    SecondsList(Vec<u32>),
    Id(u128),
    Ids(Vec<u128>),
}

/// A query with its named parameters.
pub struct QueryPlan {
    pub sql: String,
    pub params: Vec<(String, ParamValue)>,
}

/// What a parameter value holds.
pub enum ParamModel {
    Number(u64),
    Numbers(Seq<u64>),
    Seconds(u32),
    SecondsList(Seq<u32>),
    Id(u128),
    Ids(Seq<u128>),
}

impl View for ParamValue {
    type V = ParamModel;

    open spec fn view(&self) -> ParamModel {
        match self {
            ParamValue::Number(value) => ParamModel::Number(*value),
            ParamValue::Numbers(values) => ParamModel::Numbers(values@),
            ParamValue::Seconds(bits) => ParamModel::Seconds(*bits),
            ParamValue::SecondsList(bits) => ParamModel::SecondsList(bits@),
            ParamValue::Id(id) => ParamModel::Id(*id),
            ParamValue::Ids(ids) => ParamModel::Ids(ids@),
        }
    }
}

/// What a list of parameters holds.
pub open spec fn params_model(params: Seq<(String, ParamValue)>) -> Seq<(Seq<char>, ParamModel)> {
    params.map_values(|param: (String, ParamValue)| (param.0@, param.1@))
}

/// The parameters that every query gets, after its own.
pub open spec fn common_params(
    config: DataConfig,
    max_seconds: u32,
) -> Seq<(Seq<char>, ParamModel)> {
    seq![
        ("dataset_id"@, ParamModel::Id(config.dataset_id)),
        ("seed"@, ParamModel::Number(config.seed)),
        ("max_duration"@, ParamModel::Seconds(max_seconds)),
        ("max_text"@, ParamModel::Number(config.max_text_tokens as u64)),
    ]
}

/// The message for a number that must not be negative.
pub open spec fn negative_message() -> Seq<char> {
    "out of range integral type conversion attempted"@
}

/// The plan for a query of a split with its own parameters.
pub open spec fn is_plan(
    config: DataConfig,
    split: Seq<char>,
    max_seconds: u32,
    own: Seq<(Seq<char>, ParamModel)>,
    plan: Result<QueryPlan, String>,
) -> bool {
    match plan {
        Ok(plan) => {
            &&& config.max_text_tokens >= 0
            &&& place_of(config.queries@, split) matches Some(place)
            &&& plan.sql@ == config.queries@[place].1@
            &&& params_model(plan.params@) == own + common_params(config, max_seconds)
        },
        Err(message) => if config.max_text_tokens < 0 {
            message@ == negative_message()
        } else {
            place_of(config.queries@, split) is None && message@ == "missing data_config.queries."@
                + split
        },
    }
}

/// The query of a split. The longest text must not be negative, and the query
/// must be configured.
pub fn plan_query(
    config: &DataConfig,
    split: &str,
    max_seconds: u32,
    own: Vec<(String, ParamValue)>,
) -> (plan: Result<QueryPlan, String>)
    ensures
        is_plan(*config, split@, max_seconds, params_model(own@), plan),
{
    if config.max_text_tokens < 0 {
        return Err("out of range integral type conversion attempted".to_owned());
    }
    let ghost before = params_model(own@);
    let mut params = own;
    params.push(("dataset_id".to_owned(), ParamValue::Id(config.dataset_id)));
    params.push(("seed".to_owned(), ParamValue::Number(config.seed)));
    params.push(("max_duration".to_owned(), ParamValue::Seconds(max_seconds)));
    params.push(
        ("max_text".to_owned(), ParamValue::Number(config.max_text_tokens as u64)),
    );
    assert(params_model(params@) =~= before + common_params(*config, max_seconds));
    match config.query(split) {
        Some(sql) => Ok(QueryPlan { sql: sql.clone(), params }),
        None => Err(concat2("missing data_config.queries.", split)),
    }
}

/// The batches of the stages of training.
pub open spec fn stage_batches(config: DataConfig) -> Seq<u64> {
    config.training@.map_values(|stage: crate::config::SequenceConfig| stage.batches)
}

/// The seconds of the stages of training.
pub open spec fn stage_seconds(config: DataConfig) -> Seq<u32> {
    config.training@.map_values(|stage: crate::config::SequenceConfig| stage.max_seconds)
}

/// The audio of all the samples of some batches, in order.
pub open spec fn played_audio(batches: Seq<Seq<SampleModel>>) -> Seq<u128> {
    batches.flatten().map_values(|sample: SampleModel| sample.audio_id)
}

/// The validation query's own parameters.
pub open spec fn validation_params(config: DataConfig) -> Seq<(Seq<char>, ParamModel)> {
    seq![("sample_size"@, ParamModel::Number(config.validation.samples as u64))]
}

/// The training query's own parameters.
pub open spec fn training_params(config: DataConfig, ids: Seq<u128>) -> Seq<(Seq<char>, ParamModel)> {
    seq![
        ("validation_ids"@, ParamModel::Ids(ids)),
        ("stage_batches"@, ParamModel::Numbers(stage_batches(config))),
        ("stage_seconds"@, ParamModel::SecondsList(stage_seconds(config))),
    ]
}

/// The validation query. The number of samples must not be negative.
pub fn plan_validation(config: &DataConfig) -> (plan: Result<QueryPlan, String>)
    ensures
        if config.validation.samples < 0 {
            plan matches Err(message) && message@ == negative_message()
        } else {
            is_plan(
                *config,
                "validation"@,
                config.validation.max_seconds,
                validation_params(*config),
                plan,
            )
        },
{
    if config.validation.samples < 0 {
        return Err("out of range integral type conversion attempted".to_owned());
    }
    let mut own: Vec<(String, ParamValue)> = Vec::new();
    own.push(
        ("sample_size".to_owned(), ParamValue::Number(config.validation.samples as u64)),
    );
    assert(params_model(own@) =~= validation_params(*config));
    plan_query(config, "validation", config.validation.max_seconds, own)
}

/// The training query: it leaves out what validation plays.
pub fn plan_training(config: &DataConfig, validation_ids: Vec<u128>) -> (plan: Result<
    QueryPlan,
    String,
>)
    ensures
        is_plan(
            *config,
            "training"@,
            max_seconds_spec(config.training@),
            training_params(*config, validation_ids@),
            plan,
        ),
{
    let mut batches: Vec<u64> = Vec::new();
    let mut seconds: Vec<u32> = Vec::new();
    let mut i: usize = 0;
    while i < config.training.len()
        invariant
            i <= config.training@.len(),
            batches@ == stage_batches(*config).take(i as int),
            seconds@ == stage_seconds(*config).take(i as int),
        decreases config.training@.len() - i,
    {
        batches.push(config.training[i].batches);
        seconds.push(config.training[i].max_seconds);
        assert(stage_batches(*config).take(i + 1) =~= stage_batches(*config).take(i as int).push(
            config.training@[i as int].batches,
        ));
        assert(stage_seconds(*config).take(i + 1) =~= stage_seconds(*config).take(i as int).push(
            config.training@[i as int].max_seconds,
        ));
        i = i + 1;
    }
    assert(batches@ =~= stage_batches(*config));
    assert(seconds@ =~= stage_seconds(*config));
    let mut own: Vec<(String, ParamValue)> = Vec::new();
    let ghost ids = validation_ids@;
    own.push(("validation_ids".to_owned(), ParamValue::Ids(validation_ids)));
    own.push(("stage_batches".to_owned(), ParamValue::Numbers(batches)));
    own.push(("stage_seconds".to_owned(), ParamValue::SecondsList(seconds)));
    assert(params_model(own@) =~= training_params(*config, ids));
    let longest: u32 = config.training_max_seconds();
    plan_query(config, "training", longest, own)
}

/// The message for a query that gave a wrong number of batches.
pub open spec fn batch_count_message(found: nat, expected: nat) -> Seq<char> {
    "query returned "@ + decimal_spec(found) + " batches, expected "@ + decimal_spec(expected)
}

/// Training must have as many batches as its stages take.
pub fn check_batches(config: &DataConfig, found: usize) -> (result: Result<(), String>)
    ensures
        match result {
            Ok(()) => found == total_batches_spec(config.training@),
            Err(message) => found != total_batches_spec(config.training@) && message@
                == batch_count_message(found as nat, total_batches_spec(config.training@)),
        },
        result matches Err(message) ==> message@ == "query returned "@ + decimal_spec(found as nat)
            + " batches, expected "@ + decimal_spec(total_batches_spec(config.training@)),
{
    let expected: u64 = config.expected_batches();
    if found as u64 == expected {
        Ok(())
    } else {
        let mut message = concat3(
            "query returned ",
            decimal(found as u64).as_str(),
            " batches, expected ",
        );
        message.append(decimal(expected).as_str());
        Err(message)
    }
}

/// The directory of a run in the cache.
pub open spec fn run_dir_spec(cache_dir: Seq<char>, id: u128) -> Seq<char> {
    joined(cache_dir, id_text_spec(id))
}

/// The directory of a split of a run in the cache.
pub open spec fn split_dir_spec(cache_dir: Seq<char>, id: u128, split: Seq<char>) -> Seq<char> {
    joined(joined(run_dir_spec(cache_dir, id), "data"@), split)
}

/// The directory of a run in the cache.
pub fn run_dir(cache_dir: &str, id: u128) -> (path: String)
    ensures
        path@ == run_dir_spec(cache_dir@, id),
{
    join_path(cache_dir, id_text(id).as_str())
}

/// The directory of a split of a run in the cache.
pub fn split_dir(cache_dir: &str, id: u128, split: &str) -> (path: String)
    ensures
        path@ == split_dir_spec(cache_dir@, id, split@),
{
    join_path(join_path(run_dir(cache_dir, id).as_str(), "data").as_str(), split)
}

/// Where the caches of runs are kept.
pub fn runs_root(cache_dir: &str) -> (path: String)
    ensures
        path@ == joined(cache_dir@, "runs"@),
{
    join_path(cache_dir, "runs")
}

/// Where uploads are staged.
pub fn uploads_root(cache_dir: &str) -> (path: String)
    ensures
        path@ == joined(cache_dir@, "uploads"@),
{
    join_path(cache_dir, "uploads")
}

/// A run that waits for the rows of its validation query.
pub struct RunSetup {
    pub id: u128,
    pub config: DataConfig,
}

/// A run that waits for the rows of its training query.
pub struct TrainingSetup {
    pub id: u128,
    pub config: DataConfig,
    pub validation: QuerySampler,
}

/// What a run plays, and the directories that are created before it starts,
/// in order.
pub struct RunPlan {
    pub training: QuerySampler,
    pub validation: RepeatingQuerySampler,
    pub training_dir: String,
    pub validation_dir: String,
    pub run_dir: String,
}

impl RunSetup {
    /// A run begins to be set up, with its validation query.
    pub fn begin(id: u128, config: DataConfig) -> (begun: Result<(RunSetup, QueryPlan), String>)
        ensures
            match begun {
                Ok((setup, plan)) => {
                    &&& setup == (RunSetup { id, config })
                    &&& config.validation.samples >= 0
                    &&& is_plan(
                        config,
                        "validation"@,
                        config.validation.max_seconds,
                        validation_params(config),
                        Ok(plan),
                    )
                },
                Err(message) => if config.validation.samples < 0 {
                    message@ == negative_message()
                } else {
                    is_plan(
                        config,
                        "validation"@,
                        config.validation.max_seconds,
                        validation_params(config),
                        Err(message),
                    )
                },
            },
    {
        match plan_validation(&config) {
            Ok(plan) => Ok((RunSetup { id, config }, plan)),
            Err(message) => Err(message),
        }
    }

    /// The rows of the validation query came: what validation plays is known,
    /// and the training query leaves it out.
    pub fn validation_rows(self, rows: Vec<SampleRow>) -> (next: Result<
        (TrainingSetup, QueryPlan),
        String,
    >)
        ensures
            match rows_error(rows@, self.config.plbert_languages@) {
                Some(error) => next matches Err(message) && message@ == error,
                None => {
                    let batches = grouped(rows@, self.config.plbert_languages@);
                    let ids = played_audio(batches);
                    match next {
                        Ok((setup, plan)) => {
                            &&& setup.id == self.id
                            &&& setup.config == self.config
                            &&& setup.validation.batches() == batches
                            &&& is_plan(
                                self.config,
                                "training"@,
                                max_seconds_spec(self.config.training@),
                                training_params(self.config, ids),
                                Ok(plan),
                            )
                        },
                        Err(message) => is_plan(
                            self.config,
                            "training"@,
                            max_seconds_spec(self.config.training@),
                            training_params(self.config, ids),
                            Err(message),
                        ),
                    }
                },
            },
    {
        let validation = match QuerySampler::new(rows, self.config.plbert_languages.as_slice()) {
            Ok(sampler) => sampler,
            Err(message) => return Err(message),
        };
        let ids = validation.audio_ids();
        match plan_training(&self.config, ids) {
            Ok(plan) => Ok(
                (TrainingSetup { id: self.id, config: self.config, validation }, plan),
            ),
            Err(message) => Err(message),
        }
    }
}

impl TrainingSetup {
    /// The rows of the training query came: they must be as many batches as
    /// the stages take.
    pub fn training_rows(self, rows: Vec<SampleRow>, cache_dir: &str) -> (plan: Result<
        RunPlan,
        String,
    >)
        ensures
            match rows_error(rows@, self.config.plbert_languages@) {
                Some(error) => plan matches Err(message) && message@ == error,
                None => {
                    let batches = grouped(rows@, self.config.plbert_languages@);
                    let expected = total_batches_spec(self.config.training@);
                    match plan {
                        Ok(plan) => {
                            &&& batches.len() == expected
                            &&& plan.training.batches() == batches
                            &&& plan.validation.batches() == self.validation.batches()
                            &&& plan.validation.position() == 0
                            &&& plan.training_dir@ == split_dir_spec(
                                cache_dir@,
                                self.id,
                                "training"@,
                            )
                            &&& plan.validation_dir@ == split_dir_spec(
                                cache_dir@,
                                self.id,
                                "validation"@,
                            )
                            &&& plan.run_dir@ == run_dir_spec(cache_dir@, self.id)
                        },
                        Err(message) => batches.len() != expected && message@
                            == batch_count_message(batches.len(), expected),
                    }
                },
            },
    {
        let training = match QuerySampler::new(rows, self.config.plbert_languages.as_slice()) {
            Ok(sampler) => sampler,
            Err(message) => return Err(message),
        };
        match check_batches(&self.config, training.len()) {
            Ok(()) => {},
            Err(message) => return Err(message),
        }
        Ok(
            RunPlan {
                training,
                validation: self.validation.repeat(),
                training_dir: split_dir(cache_dir, self.id, "training"),
                validation_dir: split_dir(cache_dir, self.id, "validation"),
                run_dir: run_dir(cache_dir, self.id),
            },
        )
    }
}

/// What happens to a run that answers requests.
pub enum Event {
    /// A batch is asked for.
    Request { validation: bool },
    /// Nobody can ask any more.
    RequestsClosed,
    /// The batch, or what came in its place, is there.
    BatchReady,
    /// The run was cancelled.
    Cancelled,
}

/// What to do next.
#[derive(Clone, Copy, Debug, PartialEq, Eq, Structural)]
pub enum Action {
    /// Wait for a request.
    AwaitRequest,
    /// Take the next batch of training or validation.
    NextBatch { validation: bool },
    /// Answer the request, if anyone still waits.
    Reply,
    /// Cancel the prefetchers, wait for them and remove the run's directory.
    Finish,
}

#[derive(Clone, Copy, Debug, PartialEq, Eq, Structural)]
pub enum Stage {
    Idle,
    Fetching,
    Finished,
}

/// A run that answers requests.
pub struct RequestLoop {
    pub stage: Stage,
}

/// An event makes sense at a stage; cancelling always does until the end.
pub open spec fn expects(stage: Stage, event: Event) -> bool {
    match stage {
        Stage::Idle => event is Request || event is RequestsClosed || event is Cancelled,
        Stage::Fetching => event is BatchReady || event is Cancelled,
        Stage::Finished => false,
    }
}

/// One step: a request is answered before the next is taken; a run that is
/// cancelled finishes without an answer.
pub open spec fn step_spec(stage: Stage, event: Event) -> (Stage, Action) {
    match (stage, event) {
        (Stage::Idle, Event::Request { validation }) => (
            Stage::Fetching,
            Action::NextBatch { validation },
        ),
        (Stage::Fetching, Event::BatchReady) => (Stage::Idle, Action::Reply),
        _ => (Stage::Finished, Action::Finish),
    }
}

impl RequestLoop {
    /// A run that waits for its first request.
    pub fn new() -> (requests: RequestLoop)
        ensures
            requests.stage == Stage::Idle,
    {
        RequestLoop { stage: Stage::Idle }
    }

    /// One step: takes what happened and says what to do next.
    pub fn step(&mut self, event: Event) -> (action: Action)
        requires
            expects(old(self).stage, event),
        ensures
            (final(self).stage, action) == step_spec(old(self).stage, event),
    {
        match (self.stage, event) {
            (Stage::Idle, Event::Request { validation }) => {
                self.stage = Stage::Fetching;
                Action::NextBatch { validation }
            },
            (Stage::Fetching, Event::BatchReady) => {
                self.stage = Stage::Idle;
                Action::Reply
            },
            _ => {
                self.stage = Stage::Finished;
                Action::Finish
            },
        }
    }
}

/// Removing a run's directory: one that is not there is no failure.
pub fn removal_failed(succeeded: bool, not_found: bool) -> (failed: bool)
    ensures
        failed == (!succeeded && !not_found),
{
    !succeeded && !not_found
}

/// Training never plays what validation plays, as far as the query obeys: the
/// audio of every validation row is among the identifiers that the training
/// query is told to leave out.
pub proof fn law_validation_is_left_out(config: DataConfig, rows: Seq<SampleRow>, i: int)
    requires
        0 <= i < rows.len(),
    ensures
        ({
            let ids = played_audio(grouped(rows, config.plbert_languages@));
            &&& training_params(config, ids)[0] == ("validation_ids"@, ParamModel::Ids(ids))
            &&& ids.contains(rows[i].audio_id)
        }),
{
    let languages = config.plbert_languages@;
    law_grouping_keeps_every_row(rows, languages);
    let ids = played_audio(grouped(rows, languages));
    assert(ids[i] == rows[i].audio_id);
}

/// The training query is the configured one and is told everything it goes by:
/// the audio to leave out, the batches and the seconds of every stage in order,
/// the dataset, the seed, the longest of the stages and the longest text.
pub proof fn law_training_query_is_told_everything(
    config: DataConfig,
    ids: Seq<u128>,
    plan: QueryPlan,
)
    requires
        is_plan(
            config,
            "training"@,
            max_seconds_spec(config.training@),
            training_params(config, ids),
            Ok(plan),
        ),
    ensures
        plan.params@.len() == 7,
        plan.params@[0].0@ == "validation_ids"@,
        plan.params@[0].1 matches ParamValue::Ids(list) && list@ == ids,
        plan.params@[1].0@ == "stage_batches"@,
        plan.params@[1].1 matches ParamValue::Numbers(list) && list@.len() == config.training@.len()
            && forall|i: int|
            0 <= i < list@.len() ==> #[trigger] list@[i] == config.training@[i].batches,
        plan.params@[2].0@ == "stage_seconds"@,
        plan.params@[2].1 matches ParamValue::SecondsList(list) && list@.len()
            == config.training@.len() && forall|i: int|
            0 <= i < list@.len() ==> #[trigger] list@[i] == config.training@[i].max_seconds,
        ({
            let p = plan.params@;
            &&& p.len() == 7
            &&& p[3].0@ == "dataset_id"@ && p[3].1 == ParamValue::Id(config.dataset_id)
            &&& p[4].0@ == "seed"@ && p[4].1 == ParamValue::Number(config.seed)
            &&& p[5].0@ == "max_duration"@ && p[5].1 == ParamValue::Seconds(max_seconds_spec(config.training@))
            &&& p[6].0@ == "max_text"@ && (p[6].1 matches ParamValue::Number(tokens) && tokens
                == config.max_text_tokens)
        }),
        exists|place: int|
            {
                &&& 0 <= place < config.queries@.len()
                &&& (#[trigger] config.queries@[place]).0@ == "training"@
                &&& config.queries@[place].1@ == plan.sql@
                &&& forall|j: int|
                    0 <= j < place ==> (#[trigger] config.queries@[j]).0@ != "training"@
            },
{
    let params = plan.params@;
    let expected = training_params(config, ids) + common_params(
        config,
        max_seconds_spec(config.training@),
    );
    assert(params_model(params) == expected);
    assert(params.len() == 7);
    assert forall|i: int| 0 <= i < 7 implies (#[trigger] params[i]).0@ == expected[i].0
        && params[i].1@ == expected[i].1 by {
        assert(params_model(params)[i] == expected[i]);
    }
    assert(params[0].1@ == ParamModel::Ids(ids));
    assert(params[1].1@ == ParamModel::Numbers(stage_batches(config)));
    assert(params[2].1@ == ParamModel::SecondsList(stage_seconds(config)));
    assert(params[3].1@ == ParamModel::Id(config.dataset_id));
    assert(params[4].1@ == ParamModel::Number(config.seed));
    assert(params[5].1@ == ParamModel::Seconds(max_seconds_spec(config.training@)));
    assert(params[6].1@ == ParamModel::Number(config.max_text_tokens as u64));
    law_first_of_a_name_is_found(config.queries@, "training"@);
}

/// The validation query is the configured one and is told everything it goes
/// by: how many samples to draw, the dataset, the seed, the longest sample and
/// the longest text.
pub proof fn law_validation_query_is_told_everything(config: DataConfig, plan: QueryPlan)
    requires
        config.validation.samples >= 0,
        is_plan(
            config,
            "validation"@,
            config.validation.max_seconds,
            validation_params(config),
            Ok(plan),
        ),
    ensures
        plan.params@.len() == 5,
        plan.params@[0].0@ == "sample_size"@,
        plan.params@[0].1 matches ParamValue::Number(samples) && samples
            == config.validation.samples,
        ({
            let p = plan.params@;
            &&& p.len() == 5
            &&& p[1].0@ == "dataset_id"@ && p[1].1 == ParamValue::Id(config.dataset_id)
            &&& p[2].0@ == "seed"@ && p[2].1 == ParamValue::Number(config.seed)
            &&& p[3].0@ == "max_duration"@ && p[3].1 == ParamValue::Seconds(config.validation.max_seconds)
            &&& p[4].0@ == "max_text"@ && (p[4].1 matches ParamValue::Number(tokens) && tokens
                == config.max_text_tokens)
        }),
        exists|place: int|
            {
                &&& 0 <= place < config.queries@.len()
                &&& (#[trigger] config.queries@[place]).0@ == "validation"@
                &&& config.queries@[place].1@ == plan.sql@
                &&& forall|j: int|
                    0 <= j < place ==> (#[trigger] config.queries@[j]).0@ != "validation"@
            },
{
    let params = plan.params@;
    let expected = validation_params(config) + common_params(config, config.validation.max_seconds);
    assert(params_model(params) == expected);
    assert(params.len() == 5);
    assert forall|i: int| 0 <= i < 5 implies (#[trigger] params[i]).0@ == expected[i].0
        && params[i].1@ == expected[i].1 by {
        assert(params_model(params)[i] == expected[i]);
    }
    assert(params[0].1@ == ParamModel::Number(config.validation.samples as u64));
    assert(params[1].1@ == ParamModel::Id(config.dataset_id));
    assert(params[2].1@ == ParamModel::Number(config.seed));
    assert(params[3].1@ == ParamModel::Seconds(config.validation.max_seconds));
    assert(params[4].1@ == ParamModel::Number(config.max_text_tokens as u64));
    law_first_of_a_name_is_found(config.queries@, "validation"@);
}

/// A query is planned exactly when the longest text is not below zero and the
/// split has a query; and the message of a refusal says which of these fails.
pub proof fn law_planned_or_refused(
    config: DataConfig,
    split: Seq<char>,
    max_seconds: u32,
    own: Seq<(Seq<char>, ParamModel)>,
    plan: Result<QueryPlan, String>,
)
    requires
        is_plan(config, split, max_seconds, own, plan),
    ensures
        plan is Ok <==> config.max_text_tokens >= 0 && exists|i: int|
            0 <= i < config.queries@.len() && (#[trigger] config.queries@[i]).0@ == split,
        config.max_text_tokens < 0 ==> (plan matches Err(message) && message@
            == "out of range integral type conversion attempted"@),
        config.max_text_tokens >= 0 ==> (plan matches Err(message) ==> message@
            == "missing data_config.queries."@ + split),
{
    law_first_of_a_name_is_found(config.queries@, split);
}

/// What validation plays is what its rows name: one identifier per row, in the
/// order of the rows.
pub proof fn law_validation_audio_is_that_of_the_rows(
    rows: Seq<SampleRow>,
    languages: Seq<String>,
    i: int,
)
    requires
        0 <= i < rows.len(),
    ensures
        played_audio(grouped(rows, languages)).len() == rows.len(),
        played_audio(grouped(rows, languages))[i] == rows[i].audio_id,
{
    crate::sampling::law_sample_is_its_row(rows, languages, i);
}

proof fn lemma_plain_join(base: Seq<char>, name: Seq<char>)
    requires
        base.len() > 0,
        base.last() != '/',
        name.len() > 0,
        name[0] != '/',
        name.last() != '/',
    ensures
        joined(base, name) == base + seq!['/'] + name,
        joined(base, name).len() > 0,
        joined(base, name).last() != '/',
{
    law_path_ends_in_its_name(base, name);
    let path = base + seq!['/'] + name;
    assert(path.last() == name.last());
}

proof fn lemma_id_is_plain(id: u128)
    ensures
        id_text_spec(id).len() == 36,
        id_text_spec(id)[0] != '/',
        id_text_spec(id).last() != '/',
{
    crate::ids::lemma_simple_text_len(id);
    crate::ids::lemma_be_bytes_len(id as nat, 16);
    let bytes = crate::ids::be_bytes(id as nat, 16);
    crate::text::law_hexadecimal_digits(bytes, 0);
    crate::text::law_hexadecimal_digits(bytes, 15);
    assert(id_text_spec(id)[0] == crate::ids::simple_text(id)[0]);
    assert(id_text_spec(id).last() == crate::ids::simple_text(id)[31]);
}

/// The cache of a run is a directory of its own, named by the run, and each
/// split has its directory in it.
pub proof fn law_directories_of_a_run(cache_dir: Seq<char>, id: u128)
    requires
        cache_dir.len() > 0,
        cache_dir.last() != '/',
    ensures
        run_dir_spec(cache_dir, id) == cache_dir + seq!['/'] + id_text_spec(id),
        split_dir_spec(cache_dir, id, "training"@) == cache_dir + seq!['/'] + id_text_spec(id)
            + seq!['/'] + "data"@ + seq!['/'] + "training"@,
        split_dir_spec(cache_dir, id, "validation"@) == cache_dir + seq!['/'] + id_text_spec(id)
            + seq!['/'] + "data"@ + seq!['/'] + "validation"@,
{
    reveal_strlit("data");
    reveal_strlit("training");
    reveal_strlit("validation");
    lemma_id_is_plain(id);
    let run = run_dir_spec(cache_dir, id);
    lemma_plain_join(cache_dir, id_text_spec(id));
    lemma_plain_join(run, "data"@);
    lemma_plain_join(joined(run, "data"@), "training"@);
    lemma_plain_join(joined(run, "data"@), "validation"@);
}

/// A request loop's history.
pub open spec fn is_request_history(
    stages: Seq<Stage>,
    events: Seq<Event>,
    actions: Seq<Action>,
) -> bool {
    &&& stages.len() == events.len() + 1
    &&& actions.len() == events.len()
    &&& stages[0] == Stage::Idle
    &&& forall|i: int|
        #![trigger events[i]]
        0 <= i < events.len() ==> expects(stages[i], events[i]) && step_spec(stages[i], events[i])
            == (stages[i + 1], actions[i])
}

/// A request is answered, with a batch of the split it asked for, before the
/// next one is taken: every request has the next batch of its split fetched,
/// and every answer follows such a request. Being cancelled, and nobody to ask,
/// finish the run, and nothing comes after that.
pub proof fn law_requests_are_answered_in_turn(
    stages: Seq<Stage>,
    events: Seq<Event>,
    actions: Seq<Action>,
    n: int,
)
    requires
        is_request_history(stages, events, actions),
        0 <= n < events.len(),
    ensures
        events[n] matches Event::Request { validation } ==> actions[n] == (Action::NextBatch {
            validation,
        }),
        events[n] is BatchReady ==> actions[n] == Action::Reply && n > 0 && events[n
            - 1] is Request,
        events[n] is Cancelled || events[n] is RequestsClosed ==> actions[n] == Action::Finish && n
            + 1 == events.len(),
        actions[n] == Action::Reply ==> events[n] is BatchReady,
{
    assert(expects(stages[n], events[n]) && step_spec(stages[n], events[n]) == (
        stages[n + 1],
        actions[n],
    ));
    if n > 0 {
        assert(expects(stages[n - 1], events[n - 1]) && step_spec(stages[n - 1], events[n - 1]) == (
            stages[n],
            actions[n - 1],
        ));
    }
    if n + 1 < events.len() {
        assert(expects(stages[n + 1], events[n + 1]));
    }
}

/// The message for a wrong number of batches names both numbers, the one that
/// was found first.
pub proof fn law_batch_count_message(found: nat, expected: nat)
    ensures
        batch_count_message(found, expected) == "query returned "@ + decimal_spec(found)
            + " batches, expected "@ + decimal_spec(expected),
        crate::text::decimal_value(decimal_spec(found)) == found,
        crate::text::decimal_value(decimal_spec(expected)) == expected,
{
    crate::text::lemma_decimal_reads_back(found);
    crate::text::lemma_decimal_reads_back(expected);
}

} // verus!
