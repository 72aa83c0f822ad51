use tensorlane::ipc::{check_message, frame, FrameReader, MAX_FRAME_LENGTH};

fn read_all(reader: &mut FrameReader) -> Vec<Vec<u8>> {
    let mut payloads = Vec::new();
    while let Some(payload) = reader.next().unwrap() {
        payloads.push(payload);
    }
    payloads
}

fn receive(bytes: &[u8]) -> Result<Option<Vec<u8>>, String> {
    let mut reader = FrameReader::new();
    reader.feed(bytes);
    let payload = reader.next_at_end()?;
    match payload {
        None => Ok(None),
        Some(payload) => {
            let (value, remaining) =
                postcard::take_from_bytes::<Vec<u8>>(&payload).map_err(|error| error.to_string())?;
            check_message(remaining.len())?;
            Ok(Some(value))
        }
    }
}

#[test]
fn dynamic_values_and_clean_eof() {
    let mut stream = frame(&postcard::to_allocvec(&vec![1u8; 100_000]).unwrap()).unwrap();
    stream.extend(frame(&postcard::to_allocvec(&Vec::<u8>::new()).unwrap()).unwrap());
    let mut reader = FrameReader::new();
    reader.feed(&stream);
    let first = reader.next_at_end().unwrap().unwrap();
    let second = reader.next_at_end().unwrap().unwrap();
    assert_eq!(postcard::from_bytes::<Vec<u8>>(&second).unwrap(), Vec::<u8>::new());
    assert_eq!(reader.next_at_end().unwrap(), None);
    assert_eq!(postcard::from_bytes::<Vec<u8>>(&first).unwrap(), vec![1; 100_000]);
}

#[test]
fn truncated_frames_are_errors() {
    for bytes in [vec![0, 0], vec![0, 0, 0, 3, 1]] {
        assert_eq!(receive(&bytes), Err("bytes remaining on stream".to_string()));
    }
}

#[test]
fn invalid_postcard_payloads_are_errors() {
    for payload in [vec![0x80], vec![0, 42]] {
        assert!(receive(&frame(&payload).unwrap()).is_err());
    }
    assert_eq!(
        receive(&frame(&[0, 42]).unwrap()),
        Err("trailing bytes in IPC message".to_string())
    );
}

#[test]
fn oversized_header_is_rejected() {
    let header = ((MAX_FRAME_LENGTH + 1) as u32).to_be_bytes();
    assert_eq!(receive(&header), Err("frame size too big".to_string()));
    let mut reader = FrameReader::new();
    reader.feed(&header);
    assert_eq!(reader.next(), Err("frame size too big".to_string()));
}

#[test]
fn zero_sized_serialized_value() {
    let mut reader = FrameReader::new();
    reader.feed(&frame(&postcard::to_allocvec(&()).unwrap()).unwrap());
    assert_eq!(reader.next_at_end().unwrap(), Some(vec![]));
    assert_eq!(reader.next_at_end().unwrap(), None);
}

#[test]
fn messages_larger_than_default_codec_limit() {
    let payload = vec![1u8; 9 * 1024 * 1024];
    let mut reader = FrameReader::new();
    reader.feed(&frame(&payload).unwrap());
    assert_eq!(reader.next().unwrap().unwrap(), payload);
}

#[test]
fn frames_begin_with_a_big_endian_length() {
    assert_eq!(frame(&[7, 8, 9]).unwrap(), vec![0, 0, 0, 3, 7, 8, 9]);
    assert_eq!(frame(&[]).unwrap(), vec![0, 0, 0, 0]);
    assert_eq!(&frame(&[0; 258]).unwrap()[..4], &[0, 0, 1, 2]);
}

#[test]
fn payloads_do_not_depend_on_how_bytes_arrive() {
    let mut stream = Vec::new();
    for payload in [&b"first"[..], &b""[..], &b"third payload"[..]] {
        stream.extend(frame(payload).unwrap());
    }
    for size in 1..stream.len() {
        let mut reader = FrameReader::new();
        let mut payloads = Vec::new();
        for chunk in stream.chunks(size) {
            reader.feed(chunk);
            payloads.extend(read_all(&mut reader));
        }
        assert_eq!(
            payloads,
            vec![b"first".to_vec(), b"".to_vec(), b"third payload".to_vec()]
        );
        assert_eq!(reader.next_at_end().unwrap(), None);
    }
}

#[test]
fn a_head_alone_is_taken_and_then_a_clean_end() {
    let mut reader = FrameReader::new();
    reader.feed(&[0, 0, 0, 3]);
    assert_eq!(reader.next().unwrap(), None);
    assert_eq!(reader.next_at_end().unwrap(), None);
}

#[test]
fn messages_must_fill_their_frame() {
    assert_eq!(check_message(0), Ok(()));
    assert_eq!(check_message(1), Err("trailing bytes in IPC message".to_string()));
}
