use tensorlane::config::{AssetConfig, DataConfig, SequenceConfig, ValidationConfig};
use tensorlane::grpc::{
    checkpoint_opening, data_request, data_step, init_request, init_response, internal_failure,
    metrics_admission, metrics_opening, serve_asset, AssetAction, AssetEvent, CheckpointAction,
    CheckpointEvent, CheckpointReceiver, DataStep, First,
};
use tensorlane::http::{create_run, get_run, is_logged, refuse, Refusal};
use tensorlane::initialize::{self, Initialization};
use tensorlane::run::{
    AssetStore, EnsureStep, RunExecutor, RunInitialization, RunRecord, StartAction, StartEvent,
    StartRun,
};
use tensorlane::run_manager::{create_next, recorded_status, CreateStep, RunStatus};
use tensorlane::run_state::{
    check_batches, plan_query, plan_training, plan_validation, removal_failed, run_dir, runs_root,
    split_dir, uploads_root, Action, Event, ParamValue, RequestLoop, RunSetup,
};
use tensorlane::sampling::{SampleRow, Sampler};
use tensorlane::shutdown::{Reaction, Signals};
use tensorlane::status::Code;

const RUN: &str = "00000000-0000-0000-0000-00000000002a";

fn config() -> DataConfig {
    DataConfig {
        queries: vec![
            ("training".into(), "select t".into()),
            ("validation".into(), "select v".into()),
        ],
        dataset_id: 3,
        asset_type: "model".into(),
        seed: 1,
        max_text_tokens: 128,
        plbert_languages: vec!["en".into()],
        assets: vec![
            (
                "model".into(),
                AssetConfig {
                    object: "inputs/model".into(),
                    entrypoint: Some("weights".into()),
                },
            ),
            (
                "other".into(),
                AssetConfig {
                    object: "inputs/other".into(),
                    entrypoint: None,
                },
            ),
        ],
        validation: ValidationConfig {
            samples: 4,
            max_seconds: 33.0f32.to_bits(),
        },
        training: vec![
            SequenceConfig {
                batches: 2,
                max_seconds: 10.0f32.to_bits(),
            },
            SequenceConfig {
                batches: 1,
                max_seconds: 33.5f32.to_bits(),
            },
        ],
    }
}

fn row(batch_idx: u64, sample_idx: u64, id: u128) -> SampleRow {
    SampleRow {
        audio_id: id,
        duration: 2.0f64.to_bits(),
        language: Some("en".into()),
        speaker_id: None,
        text: Some("a".into()),
        batch_idx,
        sample_idx,
        object_path: "audio.tar".into(),
        byte_offset: 0,
        byte_length: 100,
    }
}

fn names(params: &[(String, ParamValue)]) -> Vec<&str> {
    params.iter().map(|param| param.0.as_str()).collect()
}

#[test]
fn missing_queries_return_configuration_errors_without_connecting() {
    let mut config = config();
    config.queries = vec![];
    for split in ["training", "validation"] {
        let error = plan_query(&config, split, 150.0f32.to_bits(), vec![]).err().unwrap();
        assert_eq!(error, format!("missing data_config.queries.{split}"));
    }
}

#[test]
fn negative_numbers_are_refused_before_the_query_is_looked_up() {
    let message = "out of range integral type conversion attempted";
    let mut negative_text = config();
    negative_text.max_text_tokens = -1;
    negative_text.queries = vec![];
    assert_eq!(plan_validation(&negative_text).err().unwrap(), message);
    let mut negative_samples = config();
    negative_samples.validation.samples = -1;
    assert_eq!(plan_validation(&negative_samples).err().unwrap(), message);
}

#[test]
fn queries_get_their_own_and_the_common_parameters() {
    let validation = plan_validation(&config()).ok().unwrap();
    assert_eq!(validation.sql, "select v");
    assert_eq!(
        names(&validation.params),
        vec!["sample_size", "dataset_id", "seed", "max_duration", "max_text"]
    );
    assert!(matches!(validation.params[0].1, ParamValue::Number(4)));
    assert!(matches!(validation.params[1].1, ParamValue::Id(3)));
    assert!(matches!(validation.params[4].1, ParamValue::Number(128)));
    let training = plan_training(&config(), vec![8, 9]).ok().unwrap();
    assert_eq!(training.sql, "select t");
    assert_eq!(
        names(&training.params),
        vec![
            "validation_ids",
            "stage_batches",
            "stage_seconds",
            "dataset_id",
            "seed",
            "max_duration",
            "max_text"
        ]
    );
    match (&training.params[0].1, &training.params[1].1, &training.params[5].1) {
        (ParamValue::Ids(ids), ParamValue::Numbers(batches), ParamValue::Seconds(longest)) => {
            assert_eq!(ids, &vec![8, 9]);
            assert_eq!(batches, &vec![2, 1]);
            assert_eq!(f32::from_bits(*longest), 33.5);
        }
        _ => panic!("wrong parameters"),
    }
}

#[test]
fn the_longest_stage_counts_and_bad_floats_do_not() {
    let mut config = config();
    assert_eq!(f32::from_bits(config.training_max_seconds()), 33.5);
    for seconds in [-5.0f32, f32::NAN, -0.0] {
        config.training = vec![SequenceConfig {
            batches: 1,
            max_seconds: seconds.to_bits(),
        }];
        assert_eq!(f32::from_bits(config.training_max_seconds()), 0.0);
    }
    let stages = [0.375f32, 150.0, 1e30, f32::MIN_POSITIVE, 33.0];
    config.training = stages
        .iter()
        .map(|seconds| SequenceConfig {
            batches: 1,
            max_seconds: seconds.to_bits(),
        })
        .collect();
    assert_eq!(
        f32::from_bits(config.training_max_seconds()),
        stages.into_iter().fold(0.0, f32::max)
    );
}

#[test]
fn training_must_have_the_expected_batches() {
    assert_eq!(config().expected_batches(), 3);
    assert_eq!(check_batches(&config(), 3), Ok(()));
    assert_eq!(
        check_batches(&config(), 2),
        Err("query returned 2 batches, expected 3".to_string())
    );
}

#[test]
fn a_run_is_set_up_from_its_rows() {
    let (setup, plan) = RunSetup::begin(42, config()).ok().unwrap();
    assert_eq!(plan.sql, "select v");
    let (setup, plan) = setup
        .validation_rows(vec![row(0, 0, 7), row(0, 1, 8)])
        .ok()
        .unwrap();
    assert!(matches!(&plan.params[0].1, ParamValue::Ids(ids) if ids == &vec![7, 8]));
    let rows = vec![row(0, 0, 1), row(1, 0, 2), row(1, 1, 3), row(2, 0, 4)];
    let mut plan = setup.training_rows(rows, "/cache/runs").ok().unwrap();
    assert_eq!(plan.training.len(), 3);
    assert_eq!(plan.run_dir, format!("/cache/runs/{RUN}"));
    assert_eq!(plan.training_dir, format!("/cache/runs/{RUN}/data/training"));
    assert_eq!(plan.validation_dir, format!("/cache/runs/{RUN}/data/validation"));
    for _ in 0..3 {
        assert_eq!(plan.validation.next_batch().unwrap().unwrap().len(), 2);
    }
}

#[test]
fn bad_rows_stop_the_set_up() {
    let begin = || RunSetup::begin(42, config()).ok().unwrap().0;
    let mut wrong = row(0, 0, 7);
    wrong.text = None;
    assert_eq!(begin().validation_rows(vec![wrong]).err().unwrap(), "sample is missing text");
    let setup = begin().validation_rows(vec![]).ok().unwrap().0;
    assert_eq!(
        setup.training_rows(vec![row(0, 0, 1)], "/c").err().unwrap(),
        "query returned 1 batches, expected 3"
    );
}

#[test]
fn cache_directories() {
    assert_eq!(runs_root("/cache"), "/cache/runs");
    assert_eq!(uploads_root("/cache"), "/cache/uploads");
    assert_eq!(run_dir("/cache/runs", 42), format!("/cache/runs/{RUN}"));
    assert_eq!(split_dir("/r", 42, "training"), format!("/r/{RUN}/data/training"));
    assert!(!removal_failed(false, true));
    assert!(removal_failed(false, false));
}

#[test]
fn requests_are_answered_one_by_one_until_cancelled() {
    let mut requests = RequestLoop::new();
    assert_eq!(
        requests.step(Event::Request { validation: true }),
        Action::NextBatch { validation: true }
    );
    assert_eq!(requests.step(Event::BatchReady), Action::Reply);
    requests.step(Event::Request { validation: false });
    assert_eq!(requests.step(Event::Cancelled), Action::Finish);
    assert_eq!(RequestLoop::new().step(Event::RequestsClosed), Action::Finish);
}

fn record() -> RunRecord {
    RunRecord {
        data_config: config(),
        train_config: "{\"steps\":2}".into(),
    }
}

fn initializing(executor: &mut RunExecutor, id: u128) -> StartRun {
    let mut start = executor.start(id).ok().unwrap();
    assert!(matches!(start.step(StartEvent::Record(Some(record()))), StartAction::SetUp));
    assert!(matches!(
        start.step(StartEvent::Done),
        StartAction::AppendStatus(RunStatus::Running)
    ));
    assert!(matches!(start.step(StartEvent::Done), StartAction::EnsureAssets));
    start
}

fn initialized(executor: &mut RunExecutor, mut start: StartRun) -> RunInitialization {
    assert!(matches!(
        start.step(StartEvent::Assets(vec![Ok(()), Ok(())])),
        StartAction::Activate
    ));
    executor.activate(start)
}

fn started(executor: &mut RunExecutor, id: u128) -> RunInitialization {
    let start = initializing(executor, id);
    initialized(executor, start)
}

#[test]
fn a_run_starts_is_used_and_finishes() {
    let mut executor = RunExecutor::new();
    let initialization = started(&mut executor, 42);
    assert_eq!(initialization.train_config, "{\"steps\":2}");
    assert_eq!(initialization.assets, vec!["model", "other"]);
    assert!(executor.is_running(42));
    assert_eq!(executor.next_batch(42), Ok(()));
    assert_eq!(executor.asset_type(42), Ok("model".to_string()));
    let asset = executor.asset(42, "model").ok().unwrap();
    assert_eq!(asset.object, "inputs/model");
    assert_eq!(asset.entrypoint.as_deref(), Some("weights"));
    assert_eq!(executor.asset(42, "nothing").err().unwrap(), "unknown asset");
    assert_eq!(executor.start(42).err().unwrap(), "run is already active");
    assert_eq!(executor.finish(42), Ok(RunStatus::Succeeded));
    assert!(!executor.is_running(42));
    assert_eq!(executor.finish(42), Err("unknown run".to_string()));
    assert_eq!(executor.next_batch(42), Err("unknown run".to_string()));
    assert_eq!(executor.asset_type(42), Err("unknown run".to_string()));
    assert_eq!(executor.asset(42, "model").err().unwrap(), "unknown run");
}

fn shutdown_with_runs(running: u128, waiting: u128) {
    let mut executor = RunExecutor::new();
    for id in 0..running {
        started(&mut executor, id);
    }
    let pending: Vec<StartRun> = (running..running + waiting)
        .map(|id| initializing(&mut executor, id))
        .collect();

    assert_eq!(executor.shutdown() as u128, 2 * running + waiting);
    let rejected = executor.start(running + waiting);
    assert_eq!(
        rejected.err().unwrap(),
        "server is shutting down; new runs are not accepted"
    );
    assert!(!executor.is_running(running + waiting));
    for start in pending {
        initialized(&mut executor, start);
    }
    for id in 0..running + waiting {
        assert!(!executor.drained());
        assert_eq!(executor.next_batch(id), Ok(()));
        assert_eq!(executor.finish(id), Ok(RunStatus::Succeeded));
        executor.release(id);
        assert!(!executor.drained());
        executor.release(id);
    }
    assert!(executor.drained());
}

#[test]
fn shutdown_waits_for_running_run_and_rejects_new_init() {
    shutdown_with_runs(1, 0);
}

#[test]
fn shutdown_waits_for_multiple_running_runs() {
    shutdown_with_runs(3, 0);
}

#[test]
fn shutdown_waits_for_initializing_run() {
    shutdown_with_runs(0, 1);
}

#[test]
fn shutdown_waits_for_multiple_initializing_runs() {
    shutdown_with_runs(0, 3);
}

#[test]
fn shutdown_waits_for_running_and_initializing_runs() {
    shutdown_with_runs(1, 2);
}

#[test]
fn failed_initialization_releases_shutdown_and_cleans_cache() {
    let mut executor = RunExecutor::new();
    let mut start = initializing(&mut executor, 1);
    assert_eq!(executor.shutdown(), 1);
    let results = vec![Err("fetching asset missing".to_string())];
    assert!(matches!(start.step(StartEvent::Assets(results)), StartAction::TakeDown));
    assert!(matches!(start.step(StartEvent::Done), StartAction::Fail(_)));
    assert!(!executor.drained());
    executor.release(1);
    assert!(executor.drained());
}

#[test]
fn sigint_with_no_runs_exits_cleanly() {
    let mut executor = RunExecutor::new();
    assert_eq!(executor.shutdown(), 0);
    assert!(executor.drained());
}

#[test]
fn a_start_that_fails_is_taken_down_once_it_is_up() {
    let mut executor = RunExecutor::new();
    let mut missing = executor.start(1).ok().unwrap();
    match missing.step(StartEvent::Record(None)) {
        StartAction::Fail(message) => assert_eq!(message, "run not found"),
        _ => panic!("found"),
    }
    let mut unset = executor.start(1).ok().unwrap();
    unset.step(StartEvent::Record(Some(record())));
    assert!(matches!(unset.step(StartEvent::Failed("no rows".into())), StartAction::Fail(_)));
    let mut assets = executor.start(1).ok().unwrap();
    assets.step(StartEvent::Record(Some(record())));
    assets.step(StartEvent::Done);
    assets.step(StartEvent::Done);
    let results = vec![Ok(()), Err("first".to_string()), Err("second".to_string())];
    assert!(matches!(assets.step(StartEvent::Assets(results)), StartAction::TakeDown));
    match assets.step(StartEvent::Done) {
        StartAction::Fail(message) => assert_eq!(message, "first"),
        _ => panic!("not failed"),
    }
    let mut status = executor.start(1).ok().unwrap();
    status.step(StartEvent::Record(Some(record())));
    status.step(StartEvent::Done);
    assert!(matches!(
        status.step(StartEvent::Failed("database".into())),
        StartAction::TakeDown
    ));
}

#[test]
fn assets_are_cached_below_their_run() {
    let store = AssetStore { root: "/cache/runs".into() };
    assert_eq!(store.path(42, "model"), format!("/cache/runs/{RUN}/assets/model"));
    assert_eq!(store.part_path(42, "model"), format!("/cache/runs/{RUN}/assets/model.part"));
    assert_eq!(AssetStore::ensure(true), EnsureStep::Present);
    assert_eq!(AssetStore::ensure(false), EnsureStep::Download);
    assert_eq!(AssetStore::fetch_failure("m", "k"), "fetching asset m from k");
    assert_eq!(
        AssetStore::synthetic_asset("m"),
        "synthetic asset m\n".repeat(1024)
    );
}

#[test]
fn statuses_read_back_from_their_numbers() {
    for status in [
        RunStatus::Running,
        RunStatus::Succeeded,
        RunStatus::Failed,
        RunStatus::Cancelled,
        RunStatus::Queued,
    ] {
        assert_eq!(RunStatus::try_from(status.code()), Ok(status));
    }
    assert_eq!(RunStatus::Running.code(), 1);
    assert_eq!(RunStatus::Queued.code(), 5);
    assert_eq!(RunStatus::Queued.name(), "queued");
    assert_eq!(RunStatus::Cancelled.name(), "cancelled");
    assert_eq!(RunStatus::try_from(0), Err("unknown run status 0".to_string()));
    assert_eq!(RunStatus::try_from(-7), Err("unknown run status -7".to_string()));
    assert_eq!(recorded_status(None), Ok(None));
    assert_eq!(recorded_status(Some(2)), Ok(Some(RunStatus::Succeeded)));
    assert_eq!(recorded_status(Some(6)), Err("unknown run status 6".to_string()));
    assert_eq!(
        create_next(CreateStep::InsertRun),
        CreateStep::AppendStatus(RunStatus::Queued)
    );
    assert_eq!(
        create_next(CreateStep::AppendStatus(RunStatus::Queued)),
        CreateStep::Complete
    );
}

#[test]
fn initialization_records_its_failure() {
    let (mut run, first) = Initialization::new();
    assert!(matches!(first, initialize::Action::Lookup));
    assert!(matches!(
        run.step(initialize::Event::Found(Some("{}".into()))),
        initialize::Action::AppendStatus(RunStatus::Running)
    ));
    assert!(matches!(run.step(initialize::Event::Done), initialize::Action::SetUp));
    assert!(matches!(
        run.step(initialize::Event::Failed("no asset".into())),
        initialize::Action::AppendStatus(RunStatus::Failed)
    ));
    match run.step(initialize::Event::Failed("database".into())) {
        initialize::Action::Refuse(status) => {
            assert_eq!((status.code, status.message.as_str()), (Code::Internal, "no asset"))
        }
        _ => panic!("not refused"),
    }
    let (mut unknown, _) = Initialization::new();
    match unknown.step(initialize::Event::Found(None)) {
        initialize::Action::Refuse(status) => {
            assert_eq!((status.code, status.message.as_str()), (Code::NotFound, "unknown run"))
        }
        _ => panic!("not refused"),
    }
    let (mut well, _) = Initialization::new();
    well.step(initialize::Event::Found(Some("{}".into())));
    well.step(initialize::Event::Done);
    match well.step(initialize::Event::Done) {
        initialize::Action::Initialized(train_config) => assert_eq!(train_config, "{}"),
        _ => panic!("not initialized"),
    }
}

#[test]
fn init_is_refused_during_shutdown() {
    let status = init_request(true, "not even an identifier").err().unwrap();
    assert_eq!(status.code, Code::Unavailable);
    assert_eq!(status.message, "server is shutting down; new runs are not accepted");
    assert_eq!(init_request(false, RUN).ok(), Some(42));
    assert_eq!(init_request(false, "x").err().unwrap().code, Code::InvalidArgument);
    let response = init_response(
        42,
        Ok(RunInitialization {
            train_config: "{}".into(),
            assets: vec!["model".into()],
        }),
    )
    .ok()
    .unwrap();
    assert_eq!(response.run_id, RUN);
    assert_eq!(response.assets, vec!["model"]);
    let failed = init_response(42, Err("run not found".into())).err().unwrap();
    assert_eq!((failed.code, failed.message.as_str()), (Code::Internal, "run not found"));
    assert_eq!(internal_failure::<u8>(Ok(3)).ok(), Some(3));
    assert_eq!(internal_failure::<u8>(Err("x".into())).err().unwrap().code, Code::Internal);
}

#[test]
fn streams_begin_with_their_description() {
    let first = || First::Metadata { run_id: RUN.into(), step: 9 };
    assert_eq!(checkpoint_opening(first()).ok(), Some((42, 9)));
    assert_eq!(metrics_opening(first()).ok(), Some(42));
    assert_eq!(
        checkpoint_opening(First::Other).err().unwrap().message,
        "first checkpoint message must be metadata"
    );
    assert_eq!(
        metrics_opening(First::Other).err().unwrap().message,
        "first metrics message must be stream metadata"
    );
    let unknown = metrics_admission(false).err().unwrap();
    assert_eq!((unknown.code, unknown.message.as_str()), (Code::NotFound, "unknown run"));
    assert!(metrics_admission(true).is_ok());
}

#[test]
fn checkpoints_are_staged_with_their_hash() {
    let (mut receiver, first) = CheckpointReceiver::new();
    assert!(matches!(first, CheckpointAction::Create));
    assert!(matches!(receiver.step(CheckpointEvent::Done), CheckpointAction::Receive));
    for bytes in [&b"abc"[..], &b"def"[..]] {
        match receiver.step(CheckpointEvent::Chunk(bytes.to_vec())) {
            CheckpointAction::Write(written) => assert_eq!(written, bytes),
            _ => panic!("not written"),
        }
        assert!(matches!(receiver.step(CheckpointEvent::Done), CheckpointAction::Receive));
    }
    assert!(matches!(receiver.step(CheckpointEvent::End), CheckpointAction::Publish));
    match receiver.step(CheckpointEvent::Done) {
        CheckpointAction::Staged { bytes, content_hash } => {
            assert_eq!(bytes, 6);
            assert_eq!(
                content_hash,
                "bef57ec7f53a6d40beb640a780a639c83bc29ac8a9816f1fc6c5c6dcd93c4721"
            );
        }
        _ => panic!("not staged"),
    }
}

#[test]
fn checkpoints_take_nothing_but_chunks() {
    let (mut receiver, _) = CheckpointReceiver::new();
    receiver.step(CheckpointEvent::Done);
    match receiver.step(CheckpointEvent::Unexpected) {
        CheckpointAction::Fail(message) => {
            assert_eq!(message, "expected checkpoint chunks after the metadata")
        }
        _ => panic!("taken"),
    }
    let (mut broken, _) = CheckpointReceiver::new();
    assert!(matches!(
        broken.step(CheckpointEvent::Failed("disk".into())),
        CheckpointAction::Fail(_)
    ));
}

#[test]
fn assets_are_served_as_they_are_read() {
    assert!(matches!(serve_asset(AssetEvent::Opened), AssetAction::Read));
    assert!(matches!(serve_asset(AssetEvent::Read(vec![])), AssetAction::End));
    match serve_asset(AssetEvent::Read(vec![1, 2])) {
        AssetAction::SendChunk(bytes) => assert_eq!(bytes, vec![1, 2]),
        _ => panic!("not sent"),
    }
    match serve_asset(AssetEvent::Failed("gone".into())) {
        AssetAction::SendError(status) => assert_eq!(status.message, "gone"),
        _ => panic!("no error"),
    }
}

#[test]
fn data_requests_name_their_split() {
    assert_eq!(data_request(RUN, 0).ok(), Some((42, false)));
    assert_eq!(data_request(RUN, 1).ok(), Some((42, true)));
    assert_eq!(data_request(RUN, 9).ok(), Some((42, false)));
    assert!(data_request("x", 0).is_err());
    assert_eq!(data_step(true), DataStep::Send);
    assert_eq!(data_step(false), DataStep::End);
}

#[test]
fn http_answers() {
    let reply = refuse(Refusal::UnknownRoute);
    assert_eq!((reply.status, reply.message.as_str()), (404, "Route not found"));
    let reply = refuse(Refusal::UnknownMethod);
    assert_eq!((reply.status, reply.message.as_str()), (405, "Method not allowed"));
    let reply = refuse(Refusal::UnknownRun);
    assert_eq!((reply.status, reply.message.as_str()), (404, "Run not found"));
    let reply = refuse(Refusal::Unreadable { status: 422, message: "bad".into() });
    assert_eq!(reply.status, 422);
    assert!(!is_logged(&reply));
    let reply = refuse(Refusal::Failed("down".into()));
    assert_eq!(reply.status, 500);
    assert!(is_logged(&reply));
    let (status, created) = create_run(Ok(42)).ok().unwrap();
    assert_eq!((status, created.run_id, created.status), (201, 42, RunStatus::Queued));
    assert_eq!(create_run(Err("x".into())).err().unwrap().status, 500);
    assert_eq!(get_run(Ok(Some(7))).ok(), Some(7));
    assert_eq!(get_run::<u8>(Ok(None)).err().unwrap().message, "Run not found");
    assert_eq!(get_run::<u8>(Err("x".into())).err().unwrap().status, 500);
}

#[test]
fn the_third_signal_forces_the_exit() {
    let mut signals = Signals::new();
    assert_eq!(signals.signal(), Reaction::ShutDown);
    assert_eq!(signals.signal(), Reaction::Wait);
    assert_eq!(signals.signal(), Reaction::Exit(130));
    assert_eq!(signals.signal(), Reaction::Exit(130));
}
