use tensorlane::checkpoints::{
    archive_order, chunk_refused, entry_kind, CheckpointJob, ChunkWriter, Entry, CHUNK_BYTES,
};
use tensorlane::upload_session::{
    artifact_open_failure, checkpoint_begin, checkpoint_chunk, checkpoint_open_failure, chunk_of,
    reading, stream_send, timestamp, Action, ArtifactProgress, CheckpointMessage, Connection, Event,
    Flush, FlushReply, Reading, SendOutcome, Session, Upload,
};
use tensorlane::uploads::{
    archive_paths, plan_parts, trim_slashes, upload_next, ObjectStore, StoreAction, StoreEvent,
    UploadStep, UploadStore, OBJECT_CONTENT_TYPE, PART_BYTES,
};

fn store() -> UploadStore {
    UploadStore::new("bucket", "/checkpoints/", "metrics", "/cache/uploads").ok().unwrap()
}

const RUN: &str = "00000000-0000-0000-0000-00000000002a";

#[test]
fn prefixes_are_trimmed_and_must_not_be_empty() {
    assert_eq!(store().checkpoint_prefix, "checkpoints");
    assert_eq!(trim_slashes("//a/b//"), "a/b");
    assert_eq!(trim_slashes("///"), "");
    assert_eq!(
        UploadStore::new("b", "//", "", "d").err().unwrap(),
        "checkpoint prefix is empty"
    );
    assert_eq!(
        UploadStore::new("b", "c", "/", "d").err().unwrap(),
        "metrics prefix is empty"
    );
}

#[test]
fn checkpoint_records_are_named_by_run_and_step() {
    let record = store().checkpoint(1, 42, 42, 9, "hash".into(), "custom-model-type".into(), 7);
    assert_eq!(record.name, format!("{RUN}_000000042"));
    assert_eq!(record.path, "checkpoints/00000000-0000-0000-0000-000000000001");
    assert_eq!(record.kind, 1);
    assert_eq!(record.metadata, "{}");
    assert_eq!(record.ancestor_asset_id, 0);
    assert!(!record.deleted);
    assert_eq!(
        (record.step, record.size, record.run_id, record.updated_at_micros),
        (42, 9, 42, 7)
    );
    assert_eq!(record.content_hash, "hash");
    assert_eq!(record.asset_type, "custom-model-type");
}

#[test]
fn artifact_records_keep_their_content_type() {
    let record = store().artifact(2, 42, 17, 5, "validation/audio".into(), "audio/wav".into(), 3);
    assert_eq!(record.path, "metrics/00000000-0000-0000-0000-000000000002");
    assert_eq!(record.content_type, "audio/wav");
    assert_eq!(record.name, "validation/audio");
    assert_eq!((record.id, record.run_id, record.step), (2, 42, 17));
    assert_eq!((record.timestamp_nanos, record.size_bytes), (5, 3));
    assert_eq!(OBJECT_CONTENT_TYPE, "application/x-tar");
}

#[test]
fn staging_paths_and_messages() {
    let store = store();
    assert_eq!(store.staging_path(42), format!("/cache/uploads/{RUN}"));
    assert_eq!(store.part_path(42), format!("/cache/uploads/{RUN}.part"));
    assert_eq!(store.open_failure(42), format!("opening staged upload /cache/uploads/{RUN}"));
    assert_eq!(
        store.upload_failure(42, "k/v"),
        format!("uploading /cache/uploads/{RUN} to s3://bucket/k/v")
    );
    let (path, part) = archive_paths("/root", 42, 3);
    assert_eq!(path, format!("/root/{RUN}/step_000000003.tar"));
    assert_eq!(part, format!("/root/{RUN}/step_000000003.tar.part"));
}

#[test]
fn objects_go_up_in_full_parts() {
    assert_eq!(plan_parts(0), vec![]);
    assert_eq!(plan_parts(1), vec![(0, 1)]);
    assert_eq!(plan_parts(PART_BYTES), vec![(0, PART_BYTES)]);
    assert_eq!(
        plan_parts(64 * 1024 * 1024 + 123),
        vec![(0, 67_108_864), (67_108_864, 123)]
    );
    let parts = plan_parts(3 * PART_BYTES + 7);
    assert_eq!(parts.len(), 4);
    assert_eq!(parts.iter().map(|part| part.1).sum::<u64>(), 3 * PART_BYTES + 7);
}

#[test]
fn small_objects_are_put_at_once() {
    for size in [0, 1, PART_BYTES] {
        let (mut object, first) = ObjectStore::new(size);
        assert!(matches!(first, StoreAction::Put));
        assert!(matches!(
            object.step(StoreEvent::Done),
            StoreAction::Finish(Ok(()))
        ));
    }
    let (mut object, _) = ObjectStore::new(1);
    match object.step(StoreEvent::Failed("denied".into())) {
        StoreAction::Finish(result) => assert_eq!(result, Err("denied".to_string())),
        _ => panic!("storing goes on"),
    }
}

fn part(action: StoreAction) -> (u64, u64, u64) {
    match action {
        StoreAction::StorePart {
            number,
            offset,
            length,
        } => (number, offset, length),
        _ => panic!("no part is stored"),
    }
}

#[test]
fn large_objects_are_stored_in_parts_and_dropped_when_one_fails() {
    let (mut object, first) = ObjectStore::new(PART_BYTES + 123);
    assert!(matches!(first, StoreAction::Begin));
    assert_eq!(part(object.step(StoreEvent::Done)), (1, 0, PART_BYTES));
    assert_eq!(part(object.step(StoreEvent::Done)), (2, PART_BYTES, 123));
    assert!(matches!(object.step(StoreEvent::Done), StoreAction::Complete));
    assert!(matches!(
        object.step(StoreEvent::Done),
        StoreAction::Finish(Ok(()))
    ));

    let (mut object, _) = ObjectStore::new(PART_BYTES + 123);
    object.step(StoreEvent::Done);
    assert!(matches!(
        object.step(StoreEvent::Failed("reset".into())),
        StoreAction::Abort
    ));
    match object.step(StoreEvent::Failed("gone".into())) {
        StoreAction::Finish(result) => assert_eq!(result, Err("reset".to_string())),
        _ => panic!("storing goes on"),
    }
}

#[test]
fn uploads_remove_the_staged_file_last() {
    let mut step = UploadStep::StoreObject;
    let mut steps = Vec::new();
    while step != UploadStep::Complete {
        steps.push(step);
        step = upload_next(step, true);
    }
    assert_eq!(
        steps,
        vec![UploadStep::StoreObject, UploadStep::InsertRecord, UploadStep::RemoveStaged]
    );
    assert_eq!(upload_next(UploadStep::InsertRecord, false), UploadStep::GiveUp);
}

#[test]
fn archives_are_cut_into_whole_chunks() {
    let job = CheckpointJob { step: 3, source: "dir".into() };
    assert_eq!((job.step, job.source.as_str()), (3, "dir"));
    let written: Vec<u8> = (0..5 * 1024 * 1024 + 17).map(|i| (i % 251) as u8).collect();
    let mut writer = ChunkWriter::new();
    let mut sent = Vec::new();
    for piece in written.chunks(700_001) {
        sent.extend(writer.write(piece));
    }
    assert!(sent.iter().all(|chunk| chunk.len() == CHUNK_BYTES));
    assert_eq!(sent.len(), 2);
    sent.extend(writer.finish());
    assert_eq!(sent.concat(), written);
}

#[test]
fn flushing_gives_what_is_held_back_once() {
    let mut writer = ChunkWriter::new();
    assert_eq!(writer.flush(), None);
    assert_eq!(writer.write(&[1, 2, 3]), Vec::<Vec<u8>>::new());
    assert_eq!(writer.flush(), Some(vec![1, 2, 3]));
    assert_eq!(writer.flush(), None);
    assert_eq!(writer.finish(), None);
    assert_eq!(chunk_refused(), "checkpoint RPC ended");
    assert_eq!(entry_kind(true), Entry::Directory);
    assert_eq!(entry_kind(false), Entry::File);
    assert_eq!(archive_order(&vec![b"b".to_vec(), b"a".to_vec()]), vec![1, 0]);
}

fn metric(step: u64) -> Event {
    Event::Job(Upload::Metric {
        step,
        name: "loss".into(),
        value: 1.5f32.to_bits(),
    })
}

#[test]
fn the_first_metric_opens_the_stream_and_a_flush_finishes_it() {
    let mut session = Session::new();
    assert!(matches!(session.step(metric(1)), Action::OpenStream));
    assert!(matches!(session.step(Event::Done), Action::SendMetric { step: 1, .. }));
    assert!(matches!(session.step(Event::Done), Action::NextJob));
    assert!(matches!(session.step(metric(2)), Action::SendMetric { step: 2, .. }));
    assert!(matches!(session.step(Event::Done), Action::NextJob));
    assert!(matches!(session.step(Event::Job(Upload::Flush)), Action::FinishStream));
    assert!(matches!(session.step(Event::Done), Action::ReplyOk));
    assert!(matches!(session.step(Event::Done), Action::NextJob));
    assert!(matches!(session.step(Event::Job(Upload::Flush)), Action::ReplyOk));
    assert!(matches!(session.step(Event::Done), Action::NextJob));
    assert!(matches!(session.step(metric(3)), Action::OpenStream));
}

#[test]
fn a_session_ends_by_finishing_its_stream() {
    let mut session = Session::new();
    let artifact = Upload::Artifact {
        step: 1,
        path: "/f".into(),
        name: "n".into(),
        content_type: "t".into(),
    };
    assert!(matches!(session.step(Event::Job(artifact)), Action::OpenStream));
    match session.step(Event::Done) {
        Action::SendArtifact { path, name, content_type, .. } => {
            assert_eq!((path.as_str(), name.as_str(), content_type.as_str()), ("/f", "n", "t"))
        }
        _ => panic!("not sent"),
    }
    session.step(Event::Done);
    assert!(matches!(session.step(Event::JobsClosed), Action::FinishStream));
    assert!(matches!(session.step(Event::Done), Action::Close(Ok(()))));
    assert!(matches!(Session::new().step(Event::JobsClosed), Action::Close(Ok(()))));
}

#[test]
fn checkpoints_leave_the_stream_alone() {
    let mut session = Session::new();
    let job = Upload::Checkpoint { step: 4, path: "/c".into() };
    assert!(matches!(session.step(Event::Job(job)), Action::SendCheckpoint { step: 4, .. }));
    assert!(matches!(session.step(Event::Done), Action::NextJob));
    assert!(!session.streaming);
}

#[test]
fn failures_are_reported_before_the_connection_closes() {
    for failure in [Event::Failed("broken".into()), Event::ReadFailed("broken".into())] {
        let mut session = Session::new();
        session.step(metric(1));
        match session.step(failure) {
            Action::ReplyError(message) => assert_eq!(message, "broken"),
            _ => panic!("not reported"),
        }
        match session.step(Event::Failed("nobody listens".into())) {
            Action::Close(Err(message)) => assert_eq!(message, "broken"),
            _ => panic!("not closed"),
        }
    }
}

#[test]
fn reading_prefers_a_message_to_stopping() {
    assert_eq!(reading(true, false, true), Some(Reading::Queue));
    assert_eq!(reading(false, false, true), Some(Reading::Stop));
    assert_eq!(reading(false, true, false), Some(Reading::Stop));
    assert_eq!(reading(false, false, false), None);
}

#[test]
fn artifacts_must_keep_their_size() {
    assert_eq!(
        ArtifactProgress::begin(false, 3).err().unwrap(),
        "artifact path must be a file"
    );
    let mut progress = ArtifactProgress::begin(true, 3).ok().unwrap();
    assert_eq!(progress.read(2), Ok(()));
    assert_eq!(progress.end(), Err("artifact shrank while uploading".to_string()));
    assert_eq!(progress.read(2), Err("artifact grew while uploading".to_string()));
    assert_eq!(progress.read(1), Ok(()));
    assert_eq!(progress.end(), Ok(()));
}

#[test]
fn files_are_sent_as_they_are_read() {
    assert_eq!(chunk_of(vec![1, 2, 3], 2), Some(vec![1, 2]));
    assert_eq!(chunk_of(vec![1, 2, 3], 0), None);
    assert!(checkpoint_chunk(vec![1], 0).is_none());
    match checkpoint_chunk(vec![1, 2], 1) {
        Some(CheckpointMessage::Chunk(bytes)) => assert_eq!(bytes, vec![1]),
        _ => panic!("no chunk"),
    }
    match checkpoint_begin("run".into(), 3, true) {
        Ok(CheckpointMessage::Metadata { run_id, step }) => {
            assert_eq!((run_id.as_str(), step), ("run", 3))
        }
        _ => panic!("no description"),
    }
    assert_eq!(
        checkpoint_begin("run".into(), 3, false).err().unwrap(),
        "checkpoint path must be a file"
    );
    assert_eq!(artifact_open_failure("/a"), "opening artifact /a");
    assert_eq!(checkpoint_open_failure("/c"), "opening checkpoint /c");
    assert_eq!(timestamp(5), Ok(5));
    assert_eq!(
        timestamp(1 << 63),
        Err("out of range integral type conversion attempted".to_string())
    );
}

#[test]
fn stream_failures_have_their_messages() {
    assert_eq!(stream_send(SendOutcome::Sent), Ok(()));
    assert_eq!(
        stream_send(SendOutcome::EndedEarly),
        Err("metrics RPC ended before the stream finished".to_string())
    );
    assert_eq!(
        stream_send(SendOutcome::NotTaken),
        Err("metrics RPC stopped receiving".to_string())
    );
    assert_eq!(stream_send(SendOutcome::CallFailed("x".into())), Err("x".to_string()));
}

#[test]
fn a_connection_is_flushed_only_when_dirty() {
    let mut connection = Connection::new();
    assert_eq!(connection.flush(), Flush::Nothing);
    connection.sent(false);
    assert_eq!(connection.flush(), Flush::Nothing);
    connection.sent(true);
    assert_eq!(connection.flush(), Flush::Ask);
    assert_eq!(connection.flushed(Ok(()), FlushReply::Reply(Ok(()))), Ok(()));
    assert_eq!(connection.flush(), Flush::Nothing);
    connection.sent(true);
    assert!(connection.close());
    assert!(!connection.close());
    assert_eq!(connection.may_send(), Err("upload client is closed".to_string()));
    assert_eq!(connection.flush(), Flush::Closed);
}

#[test]
fn a_failed_flush_closes_the_connection() {
    for (sent, reply, message) in [
        (Ok(()), FlushReply::Reply(Err("server said no".to_string())), "server said no"),
        (Ok(()), FlushReply::Ended, "upload connection closed"),
        (Err("pipe".to_string()), FlushReply::Ended, "pipe"),
        (Ok(()), FlushReply::ReadFailed("bad frame".to_string()), "bad frame"),
        (Ok(()), FlushReply::TimedOut, "upload flush timed out"),
    ] {
        let mut connection = Connection::new();
        connection.sent(true);
        assert_eq!(connection.flushed(sent, reply), Err(message.to_string()));
        assert!(connection.may_send().is_err());
    }
}
