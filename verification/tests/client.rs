use tensorlane::artifacts::{
    content_type, describe, job, may_report, now_unix_ms, report_file, DirectoryWalk, FileReport,
    Job, ListedFile, MetricCommand,
};
use tensorlane::assets::{self, destination, final_path, partial_path, Download};
use tensorlane::data::{BatchCounter, Pump, PumpAction, PumpEvent, RawSample, Work};
use tensorlane::loader::{collect_batch, range_header, skips_sample, FetchFailure};
use tensorlane::metrics::ScalarMetric;
use tensorlane::pipeline::{
    self, pipeline_result, Pipeline, ReceiveAction, ReceiveEvent, Receiving,
};
use tensorlane::prefetch::{
    cache_file, read_sample, Action, Event, Prefetcher, CACHED_BATCHES,
};
use tensorlane::reports::{self, Message, Reporter};
use tensorlane::sampling::{QuerySampler, Sample, SampleObject, SampleRow};
use tensorlane::semaphore::{
    acquire, after_wait, cancel, checked_capacity, semaphore_name, AfterWait, ProducerAction,
    ProducerEvent, RequestProducer, Waited,
};
use tensorlane::worker::{
    self, check, final_status, is_removable, is_stale, ready, resource_files, server_url,
    stop_message, Dispatcher, Launch, LaunchAction, LaunchEvent, Options, Supervisor, STATUS_FILE,
};

fn options(ranks: usize, factor: usize, num_workers: usize) -> Options {
    Options {
        run_id: "run".into(),
        addr: "localhost:8181".into(),
        root: "/tmp/run".into(),
        ranks,
        factor,
        num_workers,
    }
}

#[test]
fn options_must_make_sense() {
    assert_eq!(options(4, 2, 5).capacity(), Ok(8));
    for (ranks, factor) in [(0, 2), (2, 0)] {
        assert_eq!(
            options(ranks, factor, 0).capacity(),
            Err("ranks and prefetch_factor must be positive".to_string())
        );
    }
    assert_eq!(
        options(1, 1, 0).capacity(),
        Err("num_workers must be positive".to_string())
    );
    assert_eq!(
        options(usize::MAX, 2, 1).capacity(),
        Err("prefetch capacity overflow".to_string())
    );
}

#[test]
fn addresses_get_a_scheme() {
    assert_eq!(server_url("localhost:8181"), "http://localhost:8181");
    assert_eq!(server_url("https://host"), "https://host");
    assert_eq!(server_url("http:/host"), "http://http:/host");
    assert_eq!(server_url(""), "http://");
}

#[test]
fn the_lock_and_the_final_status_remain() {
    for name in ["auth", "ranks", "semaphore", "work.sock", "rank-0.sock", "statuses", ""] {
        assert!(is_removable(name));
        assert!(is_stale(name));
    }
    assert_eq!(STATUS_FILE, "status");
    assert!(!is_removable("lock"));
    assert!(!is_removable("status"));
    assert!(!is_stale("lock"));
    assert!(is_stale("status"));
    assert_eq!(final_status(&Ok(())), b"closed".to_vec());
    assert_eq!(
        final_status(&Err("daemon startup timed out".into())),
        b"failed: daemon startup timed out".to_vec()
    );
}

#[test]
fn a_daemon_is_found_by_its_files() {
    let files = resource_files(vec![1, 2], "/tl-abc", 4);
    let listed: Vec<(&str, &[u8])> = files
        .iter()
        .map(|file| (file.name.as_str(), file.content.as_slice()))
        .collect();
    assert_eq!(
        listed,
        vec![
            ("auth", &[1u8, 2][..]),
            ("semaphore", &b"/tl-abc"[..]),
            ("ranks", &b"4"[..])
        ]
    );
}

#[test]
fn launching_shuts_down_what_it_started() {
    let (mut launch, first) = Launch::start(&options(2, 3, 1)).ok().unwrap();
    assert!(matches!(first, LaunchAction::CreateResources { capacity: 6 }));
    assert!(matches!(launch.step(LaunchEvent::ResourcesReady), LaunchAction::Spawn));
    assert!(matches!(launch.step(LaunchEvent::Spawned), LaunchAction::AwaitReport));
    assert!(matches!(launch.step(LaunchEvent::Reported(Ok(()))), LaunchAction::Started));

    let (mut locked, _) = Launch::start(&options(1, 1, 1)).ok().unwrap();
    match locked.step(LaunchEvent::Failed("a daemon is already active for this run".into())) {
        LaunchAction::Fail(message) => {
            assert_eq!(message, "a daemon is already active for this run")
        }
        _ => panic!("not failed"),
    }

    for (event, expected) in [
        (LaunchEvent::Reported(Err("refused".into())), "refused"),
        (LaunchEvent::Silent, "daemon stopped during startup"),
    ] {
        let (mut launch, _) = Launch::start(&options(1, 1, 1)).ok().unwrap();
        launch.step(LaunchEvent::ResourcesReady);
        launch.step(LaunchEvent::Spawned);
        match launch.step(event) {
            LaunchAction::ShutDown(message) => assert_eq!(message, expected),
            _ => panic!("thread left"),
        }
    }
    assert!(Launch::start(&options(0, 1, 1)).is_err());
}

fn sample() -> RawSample {
    RawSample {
        wave: vec![1, 0],
        text: vec![0; 8],
        duration: 0.5f64.to_bits(),
        speaker_id: 4,
        language_id: 2,
    }
}

#[test]
fn samples_go_round_robin_and_the_end_to_all() {
    let mut dispatcher = Dispatcher::new(3);
    let mut counter = BatchCounter::new();
    let works = counter.expand((0..7).map(|_| sample()).collect()).works;
    let targets: Vec<usize> = works
        .iter()
        .map(|work| {
            let targets = dispatcher.dispatch(work);
            assert_eq!(targets.len(), 1);
            targets[0]
        })
        .collect();
    assert_eq!(targets, vec![0, 1, 2, 0, 1, 2, 0]);
    assert_eq!(dispatcher.dispatch(&Work::End), vec![0, 1, 2]);
    assert_eq!(dispatcher.dispatch(&works[0]), vec![1]);
}

#[test]
fn a_daemon_runs_when_all_workers_are_connected() {
    let (mut supervisor, first) = Supervisor::new(2);
    assert!(matches!(first, worker::Action::Connect));
    assert!(matches!(supervisor.step(worker::Event::Done), worker::Action::Initialize));
    assert!(matches!(supervisor.step(worker::Event::Done), worker::Action::ReportReady));
    assert!(matches!(supervisor.step(worker::Event::Done), worker::Action::AcceptWorker));
    assert!(matches!(supervisor.step(worker::Event::Done), worker::Action::AcceptWorker));
    assert!(matches!(supervisor.step(worker::Event::Done), worker::Action::Run));
    assert!(matches!(
        supervisor.step(worker::Event::PumpEnded(Ok(()))),
        worker::Action::Wait
    ));
    assert!(matches!(
        supervisor.step(worker::Event::SenderEnded(Ok(()))),
        worker::Action::Wait
    ));
    assert!(matches!(
        supervisor.step(worker::Event::Stop(Ok(()))),
        worker::Action::ShutDown { abort_sender: false, result: Ok(()) }
    ));
}

fn running() -> Supervisor {
    let (mut supervisor, _) = Supervisor::new(1);
    for _ in 0..4 {
        supervisor.step(worker::Event::Done);
    }
    supervisor
}

#[test]
fn a_failed_task_ends_the_daemon() {
    match running().step(worker::Event::PumpEnded(Err("stream".into()))) {
        worker::Action::ShutDown { abort_sender: true, result: Err(message) } => {
            assert_eq!(message, "stream")
        }
        _ => panic!("goes on"),
    }
    match running().step(worker::Event::SenderEnded(Err("socket".into()))) {
        worker::Action::ShutDown { abort_sender: false, result: Err(message) } => {
            assert_eq!(message, "socket")
        }
        _ => panic!("goes on"),
    }
    assert!(matches!(
        running().step(worker::Event::Stop(Err("worker died".into()))),
        worker::Action::ShutDown { abort_sender: true, result: Err(_) }
    ));
}

#[test]
fn starting_can_fail_time_out_or_be_stopped() {
    let step = |event| Supervisor::new(1).0.step(event);
    match step(worker::Event::StartTimedOut) {
        worker::Action::Exit(Err(message)) => {
            assert_eq!(message, "daemon startup timed out: deadline has elapsed")
        }
        _ => panic!("goes on"),
    }
    assert!(matches!(
        step(worker::Event::StartFailed("refused".into())),
        worker::Action::Exit(Err(_))
    ));
    assert!(matches!(step(worker::Event::Stop(Ok(()))), worker::Action::Exit(Ok(()))));
}

#[test]
fn a_daemon_is_checked_from_outside() {
    assert_eq!(check(None, true), Ok(()));
    assert_eq!(
        check(None, false),
        Err("TensorLane daemon stopped unexpectedly".to_string())
    );
    assert_eq!(
        check(Some(Ok(())), true),
        Err("TensorLane daemon is closed".to_string())
    );
    assert_eq!(check(Some(Err("x".into())), true), Err("x".to_string()));
    assert_eq!(ready(None, true, false), Ok(false));
    assert_eq!(ready(None, true, true), Ok(true));
    assert!(ready(Some(Ok(())), true, true).is_err());
    assert_eq!(stop_message(None), Ok(()));
    assert_eq!(stop_message(Some("x".into())), Err("x".to_string()));
}

#[test]
fn batches_become_numbered_samples() {
    let mut counter = BatchCounter::new();
    let first = counter.expand(vec![sample(), sample()]);
    assert!(first.error.is_none());
    match &first.works[1] {
        Work::Sample {
            batch,
            index,
            wave,
            text,
            duration,
            speaker_id,
            language_id,
        } => {
            assert_eq!(*batch, (0, 2));
            assert_eq!(*index, 1);
            assert_eq!(wave, &vec![1, 0]);
            assert_eq!(text.len(), 8);
            assert_eq!(f64::from_bits(*duration), 0.5);
            assert_eq!((*speaker_id, *language_id), (4, 2));
        }
        Work::End => panic!("ended"),
    }
    let second = counter.expand(vec![sample()]);
    assert!(matches!(second.works[0], Work::Sample { batch: (1, 1), .. }));
}

#[test]
fn bad_samples_stop_their_batch() {
    let mut counter = BatchCounter::new();
    assert_eq!(
        counter.expand(vec![]).error.as_deref(),
        Some("batch 0: empty batches are unsupported")
    );
    let mut odd = sample();
    odd.wave = vec![1];
    odd.text = vec![1];
    let expanded = counter.expand(vec![sample(), odd, sample()]);
    assert_eq!(expanded.works.len(), 1);
    assert_eq!(
        expanded.error.as_deref(),
        Some("batch 0 sample 1: invalid int16 PCM")
    );
    let mut short = sample();
    short.text = vec![0; 9];
    assert_eq!(
        counter.expand(vec![short]).error.as_deref(),
        Some("batch 0 sample 0: invalid int64 tokens")
    );
    assert_eq!(counter.batch_id, 0);
}

fn sent(action: PumpAction) -> ((u64, usize), usize) {
    match action {
        PumpAction::Send(Work::Sample { batch, index, .. }) => (batch, index),
        _ => panic!("no sample is sent"),
    }
}

#[test]
fn the_end_is_sent_once_the_stream_and_the_requests_have_ended() {
    let (mut pump, first) = Pump::new();
    assert!(matches!(first, PumpAction::Open));
    assert!(matches!(pump.step(PumpEvent::Opened), PumpAction::Receive));
    assert_eq!(
        sent(pump.step(PumpEvent::Batch(vec![sample(), sample()]))),
        ((0, 2), 0)
    );
    assert_eq!(sent(pump.step(PumpEvent::Sent)), ((0, 2), 1));
    assert!(matches!(pump.step(PumpEvent::Sent), PumpAction::Receive));
    assert_eq!(sent(pump.step(PumpEvent::Batch(vec![sample()]))), ((1, 1), 0));
    assert!(matches!(pump.step(PumpEvent::Sent), PumpAction::Receive));
    assert!(matches!(
        pump.step(PumpEvent::StreamEnded),
        PumpAction::FinishRequests
    ));
    assert!(matches!(
        pump.step(PumpEvent::RequestsFinished),
        PumpAction::SendEnd
    ));
    assert!(matches!(pump.step(PumpEvent::Sent), PumpAction::Stop(Ok(()))));
}

fn stopped(action: PumpAction) -> String {
    match action {
        PumpAction::Stop(Err(message)) => message,
        _ => panic!("the pump goes on"),
    }
}

#[test]
fn a_refused_batch_ends_the_pump_without_the_end() {
    let (mut pump, _) = Pump::new();
    pump.step(PumpEvent::Opened);
    let mut odd = sample();
    odd.wave.push(0);
    assert_eq!(
        sent(pump.step(PumpEvent::Batch(vec![sample(), odd, sample()]))),
        ((0, 3), 0)
    );
    assert_eq!(
        stopped(pump.step(PumpEvent::Sent)),
        "batch 0 sample 1: invalid int16 PCM"
    );

    let (mut pump, _) = Pump::new();
    pump.step(PumpEvent::Opened);
    assert_eq!(
        stopped(pump.step(PumpEvent::Batch(vec![]))),
        "batch 0: empty batches are unsupported"
    );

    let (mut pump, _) = Pump::new();
    pump.step(PumpEvent::Opened);
    pump.step(PumpEvent::StreamEnded);
    let failure = PumpEvent::Failed("request producer panicked".into());
    assert_eq!(stopped(pump.step(failure)), "request producer panicked");
}

#[test]
fn semaphores_have_bounds_and_names() {
    assert_eq!(checked_capacity(8), Ok(8));
    assert_eq!(
        checked_capacity(0),
        Err("semaphore capacity must be positive".to_string())
    );
    assert_eq!(
        checked_capacity(1 << 32),
        Err("semaphore capacity too large".to_string())
    );
    assert_eq!(
        semaphore_name(0x0123_4567_89ab_cdef_0123_4567_89ab_cdef),
        "/tl-0123456789abcdef0123"
    );
    assert_eq!(after_wait(Waited::Interrupted), AfterWait::WaitAgain);
    assert_eq!(after_wait(Waited::Failed), AfterWait::GiveUp);
    assert_eq!(after_wait(Waited::Acquired), AfterWait::Done);
    assert!(acquire(false));
    assert!(!acquire(true));
    assert!(cancel(false));
    assert!(!cancel(true));
}

#[test]
fn a_request_is_sent_for_every_slot() {
    let (mut producer, first) = RequestProducer::new();
    assert!(matches!(first, ProducerAction::ReadFlag));
    for _ in 0..3 {
        assert!(matches!(
            producer.step(ProducerEvent::Flag(false)),
            ProducerAction::Wait
        ));
        assert!(matches!(
            producer.step(ProducerEvent::Acquired),
            ProducerAction::ReadFlag
        ));
        assert!(matches!(
            producer.step(ProducerEvent::Flag(false)),
            ProducerAction::Send
        ));
        assert!(matches!(
            producer.step(ProducerEvent::Sent),
            ProducerAction::ReadFlag
        ));
    }
    assert!(matches!(
        producer.step(ProducerEvent::Flag(true)),
        ProducerAction::Stop(Ok(()))
    ));
}

#[test]
fn a_woken_producer_ends_without_a_request() {
    let (mut producer, _) = RequestProducer::new();
    producer.step(ProducerEvent::Flag(false));
    producer.step(ProducerEvent::Acquired);
    assert!(matches!(
        producer.step(ProducerEvent::Flag(true)),
        ProducerAction::Stop(Ok(()))
    ));

    let (mut failing, _) = RequestProducer::new();
    failing.step(ProducerEvent::Flag(false));
    match failing.step(ProducerEvent::WaitFailed("no semaphore".into())) {
        ProducerAction::Stop(result) => assert_eq!(result, Err("no semaphore".to_string())),
        _ => panic!("the producer goes on"),
    }

    let (mut alone, _) = RequestProducer::new();
    alone.step(ProducerEvent::Flag(false));
    alone.step(ProducerEvent::Acquired);
    alone.step(ProducerEvent::Flag(false));
    assert!(matches!(
        alone.step(ProducerEvent::Refused),
        ProducerAction::Stop(Ok(()))
    ));
}

#[test]
fn a_pipeline_asks_once_per_delivered_batch() {
    let mut pipeline = Pipeline::new("run".into(), true, 3);
    let first = pipeline.first_requests();
    assert_eq!(first.len(), 3);
    assert!(first.iter().all(|request| request.run_id == "run" && request.split == 1));
    for _ in 0..2 {
        assert!(matches!(
            pipeline.step(pipeline::Event::Response),
            pipeline::Action::Process
        ));
        assert!(matches!(
            pipeline.step(pipeline::Event::Processed),
            pipeline::Action::Deliver
        ));
        assert!(matches!(
            pipeline.step(pipeline::Event::Delivered),
            pipeline::Action::Request
        ));
        assert!(matches!(
            pipeline.step(pipeline::Event::Requested),
            pipeline::Action::AwaitResponse
        ));
    }
    pipeline.step(pipeline::Event::Response);
    pipeline.step(pipeline::Event::Processed);
    pipeline.step(pipeline::Event::Delivered);
    pipeline.step(pipeline::Event::RequestsClosed);
    pipeline.step(pipeline::Event::Response);
    pipeline.step(pipeline::Event::Processed);
    assert!(matches!(
        pipeline.step(pipeline::Event::Delivered),
        pipeline::Action::AwaitResponse
    ));
    assert!(matches!(
        pipeline.step(pipeline::Event::ResponsesEnded),
        pipeline::Action::Stop(Ok(()))
    ));
}

#[test]
fn a_pipeline_ends_when_cancelled_or_broken() {
    let mut cancelled = Pipeline::new("run".into(), false, 1);
    assert_eq!(cancelled.request().split, 0);
    assert!(matches!(
        cancelled.step(pipeline::Event::Cancelled),
        pipeline::Action::Stop(Ok(()))
    ));
    let mut broken = Pipeline::new("run".into(), false, 1);
    broken.step(pipeline::Event::Response);
    assert!(matches!(
        broken.step(pipeline::Event::ProcessorLost("joining batch processor".into())),
        pipeline::Action::Stop(Err(_))
    ));
    assert_eq!(
        pipeline_result(Err("r".into()), Err("p".into())),
        Err("r".to_string())
    );
    assert_eq!(pipeline_result(Ok(()), Err("p".into())), Err("p".to_string()));
}

#[test]
fn batches_are_handed_over_one_by_one() {
    let (mut receiving, first) = Receiving::new();
    assert!(matches!(first, ReceiveAction::Await));
    for _ in 0..2 {
        assert!(matches!(
            receiving.step(ReceiveEvent::Message),
            ReceiveAction::HandOver
        ));
        assert!(matches!(
            receiving.step(ReceiveEvent::HandedOver),
            ReceiveAction::Await
        ));
    }
    match receiving.step(ReceiveEvent::Failed("reset".into())) {
        ReceiveAction::End(result) => assert_eq!(result, Err("reset".to_string())),
        _ => panic!("receiving goes on"),
    }
    for event in [ReceiveEvent::Ended, ReceiveEvent::Cancelled] {
        let (mut receiving, _) = Receiving::new();
        assert!(matches!(receiving.step(event), ReceiveAction::End(Ok(()))));
    }
    for event in [ReceiveEvent::Refused, ReceiveEvent::Cancelled] {
        let (mut receiving, _) = Receiving::new();
        receiving.step(ReceiveEvent::Message);
        assert!(matches!(receiving.step(event), ReceiveAction::End(Ok(()))));
    }
}

fn row(batch_idx: u64, id: u128) -> SampleRow {
    SampleRow {
        audio_id: id,
        duration: 0,
        language: Some("en".into()),
        speaker_id: None,
        text: Some("a".into()),
        batch_idx,
        sample_idx: 0,
        object_path: "o".into(),
        byte_offset: 0,
        byte_length: 1,
    }
}

#[test]
fn batches_that_do_not_load_are_skipped() {
    let sampler = QuerySampler::new(vec![row(0, 1), row(1, 2), row(2, 3)], &[]).unwrap();
    let mut prefetcher = Prefetcher::new(sampler);
    let loading = |action: Action| match action {
        Action::Load(batch) => batch[0].audio_id,
        _ => panic!("not loading"),
    };
    assert_eq!(loading(prefetcher.step(Event::Room)), 1);
    assert_eq!(loading(prefetcher.step(Event::NotLoaded)), 2);
    assert!(matches!(prefetcher.step(Event::Loaded), Action::Queue));
    assert!(matches!(prefetcher.step(Event::Queued), Action::Reserve));
    assert_eq!(loading(prefetcher.step(Event::Room)), 3);
    assert!(matches!(prefetcher.step(Event::NotLoaded), Action::Stop));
    assert_eq!(CACHED_BATCHES, 20);
}

#[test]
fn twenty_batches_are_kept_ready() {
    let rows = (0..30).map(|number| row(number, u128::from(number))).collect();
    let mut prefetcher = Prefetcher::new(QuerySampler::new(rows, &[]).unwrap().repeat());
    let mut ready = Vec::new();
    let mut fill = |ready: &mut Vec<u128>| {
        while ready.len() < CACHED_BATCHES {
            let batch = match prefetcher.step(Event::Room) {
                Action::Load(batch) => batch,
                _ => panic!("not loading"),
            };
            assert!(matches!(prefetcher.step(Event::Loaded), Action::Queue));
            ready.push(batch[0].audio_id);
            assert!(matches!(prefetcher.step(Event::Queued), Action::Reserve));
        }
    };
    fill(&mut ready);
    assert_eq!(ready, (0..20).collect::<Vec<u128>>());
    assert_eq!(ready.remove(0), 0);
    fill(&mut ready);
    assert_eq!(ready, (1..21).collect::<Vec<u128>>());
}

#[test]
fn a_cancelled_prefetcher_stops() {
    for event in [Event::Cancelled, Event::Closed] {
        let sampler = QuerySampler::new(vec![row(0, 1)], &[]).unwrap();
        assert!(matches!(Prefetcher::new(sampler).step(event), Action::Stop));
    }
}

fn loaded_sample(id: u128) -> Sample {
    Sample {
        duration: 7,
        audio_id: id,
        language_id: 3,
        speaker_id: 5,
        text: vec![1, 2],
        object: SampleObject {
            path: "p".into(),
            offset: 1,
            length: 2,
        },
    }
}

#[test]
fn samples_are_served_from_their_files() {
    assert_eq!(
        cache_file("/c", 1, 2),
        "/c/00000000-0000-0000-0000-000000000001-00000000-0000-0000-0000-000000000002.raw"
    );
    let served = read_sample(loaded_sample(1), vec![9, 9]);
    assert_eq!(served.wave, vec![9, 9]);
    assert_eq!(served.text, vec![1, 2]);
    assert_eq!((served.duration, served.speaker_id, served.language_id), (7, 5, 3));
}

#[test]
fn a_batch_is_loaded_whole_or_not_at_all() {
    let whole = collect_batch(vec![
        (loaded_sample(1), Ok(Some(vec![1]))),
        (loaded_sample(2), Ok(Some(vec![2]))),
    ])
    .unwrap_or_else(|_| panic!("failed"))
    .unwrap_or_else(|| panic!("missing"));
    assert_eq!(
        whole.iter().map(|(s, w)| (s.audio_id, w.clone())).collect::<Vec<_>>(),
        vec![(1, vec![1]), (2, vec![2])]
    );
    assert!(matches!(
        collect_batch(vec![(loaded_sample(1), Ok(None)), (loaded_sample(2), Ok(Some(vec![])))]),
        Ok(None)
    ));
    match collect_batch(vec![
        (loaded_sample(1), Ok(None)),
        (loaded_sample(2), Err("first".into())),
        (loaded_sample(3), Err("second".into())),
    ]) {
        Err(message) => assert_eq!(message, "first"),
        _ => panic!("no error"),
    }
    assert!(skips_sample(FetchFailure::Timeout));
    assert!(skips_sample(FetchFailure::Answered(503)));
    assert!(!skips_sample(FetchFailure::Answered(404)));
    assert!(!skips_sample(FetchFailure::Other));
    assert_eq!(range_header(10, 5), "bytes=10-14");
    assert_eq!(range_header(0, 0), "bytes=0--1");
}

#[test]
fn assets_arrive_behind_their_description() {
    let mut download = Download::new();
    assert!(matches!(
        download.step(assets::Event::Message(Some(assets::Payload::Metadata))),
        assets::Action::Create
    ));
    assert!(matches!(download.step(assets::Event::Done), assets::Action::Receive));
    match download.step(assets::Event::Message(Some(assets::Payload::Chunk(vec![1, 2])))) {
        assets::Action::Write(bytes) => assert_eq!(bytes, vec![1, 2]),
        _ => panic!("not written"),
    }
    download.step(assets::Event::Done);
    assert!(matches!(download.step(assets::Event::End), assets::Action::Publish));
    assert!(matches!(download.step(assets::Event::Done), assets::Action::Finished));
    assert_eq!(destination("/r", 12), "/r/assets/12");
    assert_eq!(partial_path("/d"), "/d/download.part");
    assert_eq!(final_path("/d"), "/d/data");
}

#[test]
fn asset_streams_out_of_order_are_refused() {
    let failure = |action: assets::Action| match action {
        assets::Action::Fail(message) => message,
        _ => panic!("accepted"),
    };
    let chunk = || assets::Event::Message(Some(assets::Payload::Chunk(vec![1])));
    assert_eq!(
        failure(Download::new().step(chunk())),
        "asset stream must start with metadata"
    );
    assert_eq!(
        failure(Download::new().step(assets::Event::End)),
        "asset stream must start with metadata"
    );
    let mut twice = Download::new();
    twice.step(assets::Event::Message(Some(assets::Payload::Metadata)));
    twice.step(assets::Event::Done);
    assert_eq!(
        failure(twice.step(assets::Event::Message(Some(assets::Payload::Metadata)))),
        "expected an asset chunk"
    );
    assert_eq!(failure(Download::new().step(assets::Event::Failed("x".into()))), "x");
}

#[test]
fn content_types_are_guessed_from_the_path() {
    assert_eq!(content_type("/a/b.WAV", None), "audio/wav");
    assert_eq!(content_type("/a/b.json", None), "application/json");
    assert_eq!(content_type("/a/b", None), "application/octet-stream");
    assert_eq!(content_type("/a/b.wav", Some("x/y".into())), "x/y");
    let artifact = describe(
        FileReport {
            path: "p.png".into(),
            listed: None,
            name: "n".into(),
            step: 1,
            content_type: None,
            timestamp_unix_ms: 2,
        },
        3,
    );
    assert_eq!(artifact.content_type, "image/png");
    assert_eq!(artifact.name, "n");
    assert_eq!((artifact.step, artifact.timestamp_unix_ms, artifact.size_bytes), (1, 2, 3));
}

fn listed(number: usize, path: &str, relative: &str) -> ListedFile {
    ListedFile {
        number,
        path: path.into(),
        relative: relative.into(),
    }
}

#[test]
fn commands_become_jobs() {
    let metric = ScalarMetric {
        step: 1,
        timestamp_unix_ms: 2,
        name: "loss".into(),
        value: 0,
    };
    assert!(matches!(job(MetricCommand::Scalar(metric)), Job::Send(_)));
    let directory = MetricCommand::Directory {
        path: "/d".into(),
        name: "n".into(),
        step: 1,
        timestamp_unix_ms: 2,
    };
    assert!(matches!(job(directory), Job::SendFiles { .. }));
    let file = MetricCommand::Artifact {
        path: "/f".into(),
        name: "n".into(),
        step: 1,
        content_type: None,
        timestamp_unix_ms: 2,
    };
    assert!(matches!(job(file), Job::SendFile(_)));
    let report = report_file(listed(5, "/d/a/b", "a/b"), "n", 3, 4);
    assert_eq!(report.name, "n/a/b");
    assert_eq!(report.path, "/d/a/b");
    assert_eq!(report.listed, Some(5));
    assert!(report.content_type.is_none());
    assert_eq!(now_unix_ms(None), 0);
    assert_eq!(now_unix_ms(Some(5)), 5);
    assert_eq!(may_report(false), Err("metrics stream is closed".to_string()));
    assert_eq!(may_report(true), Ok(()));
}

#[test]
fn directories_are_listed_in_the_order_of_their_names() {
    let mut walk = DirectoryWalk::new();
    assert_eq!(walk.next_directory(), Some(0));
    assert_eq!(walk.entry(0, "z.txt", false), 1);
    assert_eq!(walk.entry(0, "sub", true), 2);
    assert_eq!(walk.entry(0, "sub.txt", false), 3);
    assert_eq!(walk.next_directory(), Some(2));
    assert_eq!(walk.entry(2, "b", false), 4);
    assert_eq!(walk.entry(2, "deep", true), 5);
    assert_eq!(walk.next_directory(), Some(5));
    assert_eq!(walk.entry(5, "a", false), 6);
    assert_eq!(walk.next_directory(), None);
    let listed: Vec<(usize, String)> = walk
        .finish()
        .into_iter()
        .map(|file| (file.number, file.relative))
        .collect();
    assert_eq!(
        listed,
        vec![
            (3, "sub.txt".to_string()),
            (4, "sub/b".to_string()),
            (6, "sub/deep/a".to_string()),
            (1, "z.txt".to_string()),
        ]
    );
}

fn sending(action: reports::Action) -> Message {
    match action {
        reports::Action::Send(message) => message,
        _ => panic!("nothing is sent"),
    }
}

/// Carries a reporter over a file of these chunks and gives its description's
/// name, content type and size, and what comes after it.
fn report_whole(
    reporter: &mut Reporter,
    place: (&str, Option<usize>),
    action: reports::Action,
    chunks: &[&[u8]],
) -> (String, String, u64, reports::Action) {
    match action {
        reports::Action::Measure(asked) => {
            assert_eq!((asked.path.as_str(), asked.listed), place)
        }
        _ => panic!("no size is asked for"),
    }
    let size = chunks.iter().map(|chunk| chunk.len() as u64).sum();
    let artifact = match sending(reporter.step(reports::Event::Size(size))) {
        Message::Artifact(artifact) => artifact,
        _ => panic!("no description"),
    };
    match reporter.step(reports::Event::Sent) {
        reports::Action::Open(opened) => {
            assert_eq!((opened.path.as_str(), opened.listed), place)
        }
        _ => panic!("no file is opened"),
    }
    assert!(matches!(reporter.step(reports::Event::Opened), reports::Action::Read));
    for chunk in chunks {
        let mut buffer = chunk.to_vec();
        buffer.extend([0; 3]);
        match sending(reporter.step(reports::Event::Read(buffer, chunk.len()))) {
            Message::Chunk(bytes) => assert_eq!(bytes, chunk.to_vec()),
            _ => panic!("no chunk"),
        }
        assert!(matches!(reporter.step(reports::Event::Sent), reports::Action::Read));
    }
    let next = reporter.step(reports::Event::Read(vec![0; 4], 0));
    (artifact.name, artifact.content_type, artifact.size_bytes, next)
}

#[test]
fn reports_name_their_run_and_describe_files_before_their_bytes() {
    let (mut reporter, first) = Reporter::new("run".into());
    match sending(first) {
        Message::Run(run_id) => assert_eq!(run_id, "run"),
        _ => panic!("the run is not named"),
    }
    assert!(matches!(
        reporter.step(reports::Event::Sent),
        reports::Action::AwaitCommand
    ));

    let metric = MetricCommand::Scalar(ScalarMetric {
        step: 1,
        timestamp_unix_ms: 2,
        name: "loss".into(),
        value: 3,
    });
    match sending(reporter.step(reports::Event::Command(metric))) {
        Message::Metric(metric) => assert_eq!(metric.name, "loss"),
        _ => panic!("no metric"),
    }
    reporter.step(reports::Event::Sent);

    let artifact = MetricCommand::Artifact {
        path: "/out/audio.png".into(),
        name: "audio".into(),
        step: 1,
        content_type: None,
        timestamp_unix_ms: 2,
    };
    let action = reporter.step(reports::Event::Command(artifact));
    let (name, content_type, size, next) =
        report_whole(&mut reporter, ("/out/audio.png", None), action, &[b"abc", b"d"]);
    assert_eq!((name.as_str(), content_type.as_str(), size), ("audio", "image/png", 4));
    assert!(matches!(next, reports::Action::AwaitCommand));

    let directory = MetricCommand::Directory {
        path: "/out".into(),
        name: "samples".into(),
        step: 1,
        timestamp_unix_ms: 2,
    };
    match reporter.step(reports::Event::Command(directory)) {
        reports::Action::List(path) => assert_eq!(path, "/out"),
        _ => panic!("no directory is listed"),
    }
    let found = vec![listed(2, "/out/a", "a"), listed(3, "/out/b/c", "b/c")];
    let action = reporter.step(reports::Event::Listed(found));
    let (name, _, size, next) = report_whole(&mut reporter, ("/out/a", Some(2)), action, &[]);
    assert_eq!((name.as_str(), size), ("samples/a", 0));
    let (name, _, _, next) = report_whole(&mut reporter, ("/out/b/c", Some(3)), next, &[b"x"]);
    assert_eq!(name, "samples/b/c");
    assert!(matches!(next, reports::Action::AwaitCommand));
    assert!(matches!(
        reporter.step(reports::Event::Closed),
        reports::Action::Finish(Ok(()))
    ));
}

#[test]
fn a_report_that_fails_ends_the_stream() {
    let (mut reporter, _) = Reporter::new("run".into());
    match reporter.step(reports::Event::Failed("channel closed".into())) {
        reports::Action::Finish(result) => assert_eq!(result, Err("channel closed".to_string())),
        _ => panic!("the reporter goes on"),
    }
}
