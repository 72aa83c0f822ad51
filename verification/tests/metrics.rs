use tensorlane::metrics::{
    metric_timestamp, Action, ArrayMetric, ArtifactMetric, Event, MetricsReceiver, MetricsResponse,
    Payload, ScalarMetric,
};
use tensorlane::status::{Code, Status};

const TIMESTAMP_MS: i64 = 1_700_000_000_123;

fn scalar(step: u64) -> Event {
    Event::Message(Some(Payload::Metric(ScalarMetric {
        step,
        timestamp_unix_ms: TIMESTAMP_MS + step as i64,
        name: format!("loss/{}", step % 2),
        value: (step as f32 / 4.0).to_bits(),
    })))
}

fn array(step: u64) -> Event {
    Event::Message(Some(Payload::ArrayMetric(ArrayMetric {
        step,
        timestamp_unix_ms: TIMESTAMP_MS + step as i64,
        name: "activations".into(),
        value: vec![(step as f32).to_bits(), (-1.0f32).to_bits()],
    })))
}

fn artifact(name: &str, size_bytes: u64) -> Event {
    Event::Message(Some(Payload::Artifact(ArtifactMetric {
        step: 17,
        timestamp_unix_ms: TIMESTAMP_MS,
        name: name.into(),
        content_type: "audio/wav".into(),
        size_bytes,
    })))
}

fn chunk(bytes: &[u8]) -> Event {
    Event::Message(Some(Payload::ArtifactChunk(bytes.to_vec())))
}

fn refusal(action: Action) -> Status {
    match action {
        Action::Finish(Err(status)) => status,
        _ => panic!("not refused"),
    }
}

fn answer(action: Action) -> MetricsResponse {
    match action {
        Action::Finish(Ok(response)) => response,
        _ => panic!("not answered"),
    }
}

/// Feeds a stream whose work always succeeds; counts the rows per insert.
struct Stream {
    receiver: MetricsReceiver,
    scalars: Vec<Vec<(u64, String, f32, i128)>>,
    arrays: Vec<usize>,
    next_id: u128,
}

impl Stream {
    fn open() -> Self {
        Stream {
            receiver: MetricsReceiver::new(5),
            scalars: Vec::new(),
            arrays: Vec::new(),
            next_id: 100,
        }
    }

    fn send(&mut self, event: Event) -> Option<Result<MetricsResponse, Status>> {
        let mut action = self.receiver.step(event);
        loop {
            let done = match action {
                Action::Receive => return None,
                Action::Finish(result) => return Some(result),
                Action::InsertScalars(rows) => {
                    assert!(rows.iter().all(|row| row.run_id == 5));
                    self.scalars.push(
                        rows.into_iter()
                            .map(|row| {
                                (row.step, row.name, f32::from_bits(row.value), row.timestamp_nanos)
                            })
                            .collect(),
                    );
                    Event::Done
                }
                Action::InsertArrays(rows) => {
                    self.arrays.push(rows.len());
                    Event::Done
                }
                Action::CreatePart => {
                    self.next_id += 1;
                    Event::Created(self.next_id)
                }
                _ => Event::Done,
            };
            action = self.receiver.step(done);
        }
    }
}

#[test]
fn metrics_buffer_independently_flush_at_1000_and_flush_tails_on_close() {
    let mut stream = Stream::open();
    for step in 0..999 {
        assert!(stream.send(scalar(step)).is_none());
        assert!(stream.send(array(step)).is_none());
    }
    assert!(stream.scalars.is_empty());
    assert!(stream.arrays.is_empty());

    stream.send(scalar(999));
    assert_eq!(stream.scalars.len(), 1);
    assert_eq!(stream.scalars[0].len(), 1000);
    assert!(stream.arrays.is_empty());

    stream.send(array(999));
    assert_eq!(stream.arrays, vec![1000]);

    for step in 1000..1007 {
        stream.send(scalar(step));
        stream.send(array(step));
    }
    assert_eq!(stream.scalars.len(), 1);
    assert_eq!(stream.arrays.len(), 1);
    let accepted = stream.send(Event::End).unwrap().ok().unwrap();
    assert_eq!(accepted.metrics_received, 1007);
    assert_eq!(accepted.array_metrics_received, 1007);
    assert_eq!(accepted.artifacts_received, 0);
    assert_eq!(stream.scalars[1].len(), 7);
    assert_eq!(stream.arrays, vec![1000, 7]);

    let rows: Vec<_> = stream.scalars.concat();
    for (step, row) in rows.iter().enumerate() {
        let step = step as u64;
        assert_eq!(
            row,
            &(
                step,
                format!("loss/{}", step % 2),
                step as f32 / 4.0,
                (TIMESTAMP_MS + step as i64) as i128 * 1_000_000
            )
        );
    }
}

#[test]
fn artifacts_are_published_with_their_last_byte() {
    let mut receiver = MetricsReceiver::new(7);
    assert!(matches!(receiver.step(artifact("validation/audio", 5)), Action::CreatePart));
    assert!(matches!(receiver.step(Event::Created(9)), Action::Receive));
    match receiver.step(chunk(&[1, 2, 3])) {
        Action::WriteChunk(9, bytes) => assert_eq!(bytes, vec![1, 2, 3]),
        _ => panic!("not written"),
    }
    assert!(matches!(receiver.step(Event::Done), Action::Receive));
    assert!(matches!(receiver.step(chunk(&[])), Action::WriteChunk(9, _)));
    assert!(matches!(receiver.step(Event::Done), Action::Receive));
    assert!(matches!(receiver.step(chunk(&[4, 5])), Action::WriteChunk(9, _)));
    assert!(matches!(receiver.step(Event::Done), Action::PublishPart(9)));
    match receiver.step(Event::Done) {
        Action::Enqueue(staged) => {
            assert_eq!(staged.id, 9);
            assert_eq!(staged.run_id, 7);
            assert_eq!(staged.step, 17);
            assert_eq!(staged.timestamp_nanos, TIMESTAMP_MS as i128 * 1_000_000);
            assert_eq!(staged.name, "validation/audio");
            assert_eq!(staged.content_type, "audio/wav");
            assert_eq!(staged.size_bytes, 5);
        }
        _ => panic!("not enqueued"),
    }
    assert!(matches!(receiver.step(Event::Done), Action::Receive));
    let response = answer(receiver.step(Event::End));
    assert_eq!(response.artifacts_received, 1);
    assert_eq!(response.artifact_bytes_received, 5);
}

#[test]
fn an_empty_artifact_needs_no_chunk() {
    let mut stream = Stream::open();
    assert!(stream.send(artifact("empty", 0)).is_none());
    let response = stream.send(Event::End).unwrap().ok().unwrap();
    assert_eq!(response.artifacts_received, 1);
    assert_eq!(response.artifact_bytes_received, 0);
}

#[test]
fn a_new_artifact_cancels_the_one_before() {
    let mut receiver = MetricsReceiver::new(7);
    receiver.step(artifact("first", 5));
    receiver.step(Event::Created(1));
    assert!(matches!(receiver.step(artifact("second", 2)), Action::RemovePart(1)));
    assert!(matches!(receiver.step(Event::Done), Action::CreatePart));
    receiver.step(Event::Created(2));
    assert!(matches!(receiver.step(chunk(&[1, 2])), Action::WriteChunk(2, _)));
}

#[test]
fn messages_that_make_no_sense_are_refused() {
    let refused = |event: Event| refusal(MetricsReceiver::new(1).step(event));
    let status = refused(Event::Message(None));
    assert_eq!(status.code, Code::InvalidArgument);
    assert_eq!(status.message, "metrics message has no payload");
    assert_eq!(
        refused(Event::Message(Some(Payload::Metadata))).message,
        "metrics stream metadata may only appear first"
    );
    assert_eq!(refused(chunk(&[1])).message, "artifact chunk has no artifact metadata");
    assert_eq!(refused(artifact("", 1)).message, "artifact name cannot be empty");
    let unnamed = Event::Message(Some(Payload::Metric(ScalarMetric {
        step: 1,
        timestamp_unix_ms: 0,
        name: String::new(),
        value: 0,
    })));
    assert_eq!(refused(unnamed).message, "metric name cannot be empty");
    let unnamed_array = Event::Message(Some(Payload::ArrayMetric(ArrayMetric {
        step: 1,
        timestamp_unix_ms: 0,
        name: String::new(),
        value: vec![],
    })));
    assert_eq!(refused(unnamed_array).message, "metric name cannot be empty");
    let timeless = Event::Message(Some(Payload::Metric(ScalarMetric {
        step: 1,
        timestamp_unix_ms: i64::MAX,
        name: "loss".into(),
        value: 0,
    })));
    let status = refused(timeless);
    assert_eq!(status.code, Code::Internal);
    assert_eq!(status.message, "timestamp was not in range");
}

#[test]
fn too_many_bytes_remove_the_part_before_the_refusal() {
    let mut receiver = MetricsReceiver::new(7);
    receiver.step(artifact("a", 2));
    receiver.step(Event::Created(4));
    assert!(matches!(receiver.step(chunk(&[1, 2, 3])), Action::RemovePart(4)));
    let status = refusal(receiver.step(Event::Failed("no such file".into())));
    assert_eq!(status.message, "artifact contains more bytes than declared");
}

#[test]
fn an_incomplete_artifact_at_the_end_is_refused() {
    let mut receiver = MetricsReceiver::new(7);
    receiver.step(artifact("a", 2));
    receiver.step(Event::Created(4));
    assert!(matches!(receiver.step(Event::End), Action::RemovePart(4)));
    let status = refusal(receiver.step(Event::Done));
    assert_eq!(status.code, Code::InvalidArgument);
    assert_eq!(status.message, "metrics stream ended before the artifact was complete");
}

#[test]
fn a_failed_write_removes_the_part_and_reports_the_failure() {
    let mut receiver = MetricsReceiver::new(7);
    receiver.step(artifact("a", 2));
    receiver.step(Event::Created(4));
    receiver.step(chunk(&[1]));
    assert!(matches!(receiver.step(Event::Failed("disk full".into())), Action::RemovePart(4)));
    let status = refusal(receiver.step(Event::Done));
    assert_eq!(status.code, Code::Internal);
    assert_eq!(status.message, "disk full");
}

#[test]
fn accepted_rows_are_inserted_though_the_stream_fails() {
    let mut stream = Stream::open();
    stream.send(scalar(1));
    stream.send(array(1));
    stream.send(array(2));
    let lost = Status {
        code: Code::Cancelled,
        message: "gone".into(),
    };
    let status = stream.send(Event::StreamFailed(lost)).unwrap().err().unwrap();
    assert_eq!(status.code, Code::Cancelled);
    assert_eq!(status.message, "gone");
    assert_eq!(stream.scalars.len(), 1);
    assert_eq!(stream.arrays, vec![2]);
}

#[test]
fn a_failed_insert_is_reported_first() {
    let mut receiver = MetricsReceiver::new(7);
    receiver.step(scalar(1));
    receiver.step(array(1));
    assert!(matches!(receiver.step(Event::End), Action::InsertScalars(_)));
    assert!(matches!(
        receiver.step(Event::Failed("database down".into())),
        Action::InsertArrays(_)
    ));
    let status = refusal(receiver.step(Event::Failed("still down".into())));
    assert_eq!(status.message, "database down");
}

#[test]
fn timestamps_are_checked_against_the_calendar() {
    assert_eq!(metric_timestamp(1).ok(), Some(1_000_000));
    assert_eq!(metric_timestamp(-1).ok(), Some(-1_000_000));
    assert_eq!(metric_timestamp(253_402_300_799_999).ok(), Some(253_402_300_799_999_000_000));
    assert!(metric_timestamp(253_402_300_800_000).is_err());
    assert!(metric_timestamp(-377_705_116_800_000).is_ok());
    assert!(metric_timestamp(-377_705_116_800_001).is_err());
}
