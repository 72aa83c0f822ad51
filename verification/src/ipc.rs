//! Messages between the daemon and the workers: a four-byte big-endian length,
//! then the payload.
use crate::ids::be_bytes;
use crate::wire::be_value;
use tokio_util::codec::{Decoder, Encoder};
use vstd::prelude::*;

verus! {

/// The largest payload, in bytes.
pub const MAX_FRAME_LENGTH: usize = 268_435_456;

/// The codec of `tokio_util` that cuts a stream of bytes into frames.
#[verifier::external_type_specification]
#[verifier::external_body]
pub struct ExLengthDelimitedCodec(tokio_util::codec::LengthDelimitedCodec);

/// A buffer of `bytes` that is filled at its end and emptied at its front.
#[verifier::external_type_specification]
#[verifier::external_body]
pub struct ExBytesMut(bytes::BytesMut);

/// The bytes in a buffer.
pub uninterp spec fn held(buffer: bytes::BytesMut) -> Seq<u8>;

/// The largest payload of a codec, and the length of the payload whose head it
/// has taken already.
pub uninterp spec fn codec_state(codec: tokio_util::codec::LengthDelimitedCodec) -> (nat, Option<nat>);

/// The codec's heads are four bytes, a big-endian length and nothing else.
pub uninterp spec fn plain_head(codec: tokio_util::codec::LengthDelimitedCodec) -> bool;

/// A payload with its length in front.
pub open spec fn framed(payload: Seq<u8>) -> Seq<u8> {
    be_bytes(payload.len(), 4) + payload
}

/// How far reading frames has come: the length of the payload whose head is
/// taken, and the bytes that are not.
pub struct Reading {
    pub pending: Option<nat>,
    pub bytes: Seq<u8>,
}

/// What reading one frame gives.
pub enum ReadFrame {
    /// A payload, and what is left.
    Payload(Seq<u8>, Reading),
    /// There is no whole frame yet.
    NotYet(Reading),
    /// The head announces more than is allowed; nothing is taken.
    TooLarge,
}

/// Reading a payload of known length.
pub open spec fn read_payload(length: nat, bytes: Seq<u8>) -> ReadFrame {
    if bytes.len() < length {
        ReadFrame::NotYet(Reading { pending: Some(length), bytes })
    } else {
        ReadFrame::Payload(
            bytes.take(length as int),
            Reading { pending: None, bytes: bytes.skip(length as int) },
        )
    }
}

/// Reading one frame.
pub open spec fn read_frame(limit: nat, reading: Reading) -> ReadFrame {
    match reading.pending {
        Some(length) => read_payload(length, reading.bytes),
        None => if reading.bytes.len() < 4 {
            ReadFrame::NotYet(reading)
        } else {
            let length = be_value(reading.bytes.take(4));
            if length > limit {
                ReadFrame::TooLarge
            } else {
                read_payload(length, reading.bytes.skip(4))
            }
        },
    }
}

/// `LengthDelimitedCodec::builder` with a largest payload, then `new_codec`:
/// four bytes of head, nothing read yet.
#[verifier::external_body]
fn new_codec(limit: usize) -> (codec: tokio_util::codec::LengthDelimitedCodec)
    requires
        limit <= u32::MAX,
    ensures
        plain_head(codec),
        codec_state(codec) == (limit as nat, None::<nat>),
{
    tokio_util::codec::LengthDelimitedCodec::builder().max_frame_length(limit).new_codec()
}

/// `BytesMut::new`: an empty buffer.
#[verifier::external_body]
fn new_buffer() -> (buffer: bytes::BytesMut)
    ensures
        held(buffer) == Seq::<u8>::empty(),
{
    bytes::BytesMut::new()
}

/// `BytesMut::extend_from_slice`: bytes are added at the end.
#[verifier::external_body]
fn append_bytes(buffer: &mut bytes::BytesMut, bytes: &[u8])
    ensures
        held(*final(buffer)) == held(*old(buffer)) + bytes@,
{
    buffer.extend_from_slice(bytes);
}

/// `BytesMut::to_vec`: a copy of the bytes.
#[verifier::external_body]
fn buffer_bytes(buffer: &bytes::BytesMut) -> (bytes: Vec<u8>)
    ensures
        bytes@ == held(*buffer),
{
    buffer.to_vec()
}

/// `LengthDelimitedCodec::encode`: the payload with its length in front is
/// added to the buffer; one that is too large is refused.
#[verifier::external_body]
fn encode(
    codec: &mut tokio_util::codec::LengthDelimitedCodec,
    payload: &[u8],
    buffer: &mut bytes::BytesMut,
) -> (result: Result<(), String>)
    requires
        plain_head(*old(codec)),
    ensures
        plain_head(*final(codec)),
        codec_state(*final(codec)) == codec_state(*old(codec)),
        match result {
            Ok(()) => payload@.len() <= codec_state(*old(codec)).0 && held(*final(buffer)) == held(
                *old(buffer),
            ) + framed(payload@),
            Err(message) => payload@.len() > codec_state(*old(codec)).0 && held(*final(buffer))
                == held(*old(buffer)) && message@ == "frame size too big"@,
        },
{
    codec.encode(payload, buffer).map_err(|error| error.to_string())
}

/// `LengthDelimitedCodec::decode`: takes one frame off the buffer where there
/// is a whole one. A head is taken as soon as it is there; one that announces
/// too much is refused and left.
#[verifier::external_body]
fn decode(
    codec: &mut tokio_util::codec::LengthDelimitedCodec,
    buffer: &mut bytes::BytesMut,
) -> (result: Result<Option<Vec<u8>>, String>)
    requires
        plain_head(*old(codec)),
    ensures
        plain_head(*final(codec)),
        codec_state(*final(codec)).0 == codec_state(*old(codec)).0,
        match read_frame(
            codec_state(*old(codec)).0,
            Reading { pending: codec_state(*old(codec)).1, bytes: held(*old(buffer)) },
        ) {
            ReadFrame::Payload(payload, left) => {
                &&& result matches Ok(Some(bytes))
                &&& bytes@ == payload
                &&& left == (Reading {
                    pending: codec_state(*final(codec)).1,
                    bytes: held(*final(buffer)),
                })
            },
            ReadFrame::NotYet(left) => {
                &&& result matches Ok(None)
                &&& left == (Reading {
                    pending: codec_state(*final(codec)).1,
                    bytes: held(*final(buffer)),
                })
            },
            ReadFrame::TooLarge => {
                &&& result matches Err(message)
                &&& message@ == "frame size too big"@
                &&& codec_state(*final(codec)) == codec_state(*old(codec))
                &&& held(*final(buffer)) == held(*old(buffer))
            },
        },
{
    match codec.decode(buffer) {
        Ok(frame) => Ok(frame.map(|bytes| bytes.to_vec())),
        Err(error) => Err(error.to_string()),
    }
}

/// Cuts a stream of bytes into payloads.
pub struct FrameReader {
    codec: tokio_util::codec::LengthDelimitedCodec,
    buffer: bytes::BytesMut,
}

impl View for FrameReader {
    type V = Reading;

    closed spec fn view(&self) -> Reading {
        Reading { pending: codec_state(self.codec).1, bytes: held(self.buffer) }
    }
}

impl FrameReader {
    /// The reader takes payloads up to the largest that are sent.
    pub closed spec fn wf(self) -> bool {
        plain_head(self.codec) && codec_state(self.codec).0 == MAX_FRAME_LENGTH
    }

    /// Nothing has come yet.
    pub fn new() -> (reader: FrameReader)
        ensures
            reader.wf(),
            reader@ == (Reading { pending: None, bytes: Seq::empty() }),
    {
        FrameReader { codec: new_codec(MAX_FRAME_LENGTH), buffer: new_buffer() }
    }

    /// More bytes came.
    pub fn feed(&mut self, bytes: &[u8])
        requires
            old(self).wf(),
        ensures
            final(self).wf(),
            final(self)@ == (Reading { bytes: old(self)@.bytes + bytes@, ..old(self)@ }),
    {
        append_bytes(&mut self.buffer, bytes);
    }

    /// The next payload, where it has come whole.
    pub fn next(&mut self) -> (payload: Result<Option<Vec<u8>>, String>)
        requires
            old(self).wf(),
        ensures
            final(self).wf(),
            match read_frame(MAX_FRAME_LENGTH as nat, old(self)@) {
                ReadFrame::Payload(bytes, left) => {
                    &&& payload matches Ok(Some(list))
                    &&& list@ == bytes
                    &&& final(self)@ == left
                },
                ReadFrame::NotYet(left) => {
                    &&& payload matches Ok(None)
                    &&& final(self)@ == left
                },
                ReadFrame::TooLarge => {
                    &&& payload matches Err(message)
                    &&& message@ == "frame size too big"@
                    &&& final(self)@ == old(self)@
                },
            },
    {
        decode(&mut self.codec, &mut self.buffer)
    }

    /// The next payload when nothing more will come: bytes that are no whole
    /// frame are an error.
    pub fn next_at_end(&mut self) -> (payload: Result<Option<Vec<u8>>, String>)
        requires
            old(self).wf(),
        ensures
            final(self).wf(),
            match read_frame(MAX_FRAME_LENGTH as nat, old(self)@) {
                ReadFrame::Payload(bytes, left) => {
                    &&& payload matches Ok(Some(list))
                    &&& list@ == bytes
                    &&& final(self)@ == left
                },
                ReadFrame::NotYet(left) => {
                    &&& final(self)@ == left
                    &&& match payload {
                        Ok(found) => found is None && left.bytes.len() == 0,
                        Err(message) => left.bytes.len() > 0 && message@
                            == "bytes remaining on stream"@,
                    }
                },
                ReadFrame::TooLarge => {
                    &&& payload matches Err(message)
                    &&& message@ == "frame size too big"@
                    &&& final(self)@ == old(self)@
                },
            },
    {
        match decode(&mut self.codec, &mut self.buffer) {
            Ok(None) => {
                let left = buffer_bytes(&self.buffer);
                if left.len() == 0 {
                    Ok(None)
                } else {
                    Err("bytes remaining on stream".to_owned())
                }
            },
            result => result,
        }
    }
}

/// A payload with its length in front, ready to be written.
pub fn frame(payload: &[u8]) -> (bytes: Result<Vec<u8>, String>)
    ensures
        match bytes {
            Ok(bytes) => payload@.len() <= MAX_FRAME_LENGTH && bytes@ == framed(payload@),
            Err(message) => payload@.len() > MAX_FRAME_LENGTH && message@ == "frame size too big"@,
        },
        bytes is Ok <==> payload@.len() <= 268_435_456,
{
    let mut codec = new_codec(MAX_FRAME_LENGTH);
    let mut buffer = new_buffer();
    match encode(&mut codec, payload, &mut buffer) {
        Ok(()) => {
            let bytes = buffer_bytes(&buffer);
            assert(bytes@ =~= framed(payload@));
            Ok(bytes)
        },
        Err(message) => Err(message),
    }
}

/// A message must fill its frame: this many bytes were left when it was read.
pub fn check_message(remaining: usize) -> (result: Result<(), String>)
    ensures
        match result {
            Ok(()) => remaining == 0,
            Err(message) => remaining > 0 && message@ == "trailing bytes in IPC message"@,
        },
{
    if remaining == 0 {
        Ok(())
    } else {
        Err("trailing bytes in IPC message".to_owned())
    }
}

/// All the payloads that can be read, and where reading stops.
pub open spec fn read_all(limit: nat, reading: Reading) -> (Seq<Seq<u8>>, ReadFrame)
    decreases
            reading.bytes.len(),
            if reading.pending is Some {
                1nat
            } else {
                0nat
            },
{
    match read_frame(limit, reading) {
        ReadFrame::Payload(payload, left) => {
            let (rest, end) = read_all(limit, left);
            (seq![payload] + rest, end)
        },
        end => (Seq::empty(), end),
    }
}

/// Payloads, each with its length in front, one after the other.
pub open spec fn framed_all(payloads: Seq<Seq<u8>>) -> Seq<u8>
    decreases payloads.len(),
{
    if payloads.len() == 0 {
        Seq::empty()
    } else {
        framed(payloads[0]) + framed_all(payloads.drop_first())
    }
}

proof fn lemma_length_reads_back(length: nat)
    requires
        length <= u32::MAX,
    ensures
        be_bytes(length, 4).len() == 4,
        be_value(be_bytes(length, 4)) == length,
{
    crate::ids::lemma_be_bytes_len(length, 4);
    assert(length < vstd::arithmetic::power::pow(256, 4)) by {
        reveal_with_fuel(vstd::arithmetic::power::pow, 5);
    }
    crate::ids::lemma_be_round_trip(length, 4);
}

/// A read gives back what a write wrote: the payloads of a stream of frames
/// come out as they went in, and nothing is left.
pub proof fn law_frames_read_back(limit: nat, payloads: Seq<Seq<u8>>)
    requires
        limit <= u32::MAX,
        forall|i: int| 0 <= i < payloads.len() ==> (#[trigger] payloads[i]).len() <= limit,
    ensures
        read_all(limit, Reading { pending: None, bytes: framed_all(payloads) }) == (
            payloads,
            ReadFrame::NotYet(Reading { pending: None, bytes: Seq::empty() }),
        ),
    decreases payloads.len(),
{
    let reading = Reading { pending: None, bytes: framed_all(payloads) };
    if payloads.len() == 0 {
        assert(read_all(limit, reading).0 =~= payloads);
    } else {
        let first = payloads[0];
        let rest = payloads.drop_first();
        assert forall|i: int| 0 <= i < rest.len() implies (#[trigger] rest[i]).len() <= limit by {
            assert(rest[i] == payloads[i + 1]);
        }
        law_frames_read_back(limit, rest);
        lemma_length_reads_back(first.len());
        let bytes = reading.bytes;
        assert(bytes.take(4) =~= be_bytes(first.len(), 4));
        assert(bytes.skip(4) =~= first + framed_all(rest));
        assert((first + framed_all(rest)).take(first.len() as int) =~= first);
        assert((first + framed_all(rest)).skip(first.len() as int) =~= framed_all(rest));
        assert(seq![first] + rest =~= payloads);
    }
}

/// It does not matter how the bytes of a stream arrive: reading what has come,
/// then more, gives the payloads that reading all at once gives, and stops at
/// the same place.
pub proof fn law_any_chunking(limit: nat, reading: Reading, more: Seq<u8>, left: Reading)
    requires
        read_all(limit, reading).1 == ReadFrame::NotYet(left),
    ensures
        ({
            let whole = read_all(
                limit,
                Reading { pending: reading.pending, bytes: reading.bytes + more },
            );
            let later = read_all(limit, Reading { pending: left.pending, bytes: left.bytes + more });
            whole == (read_all(limit, reading).0 + later.0, later.1)
        }),
    decreases
            reading.bytes.len(),
            if reading.pending is Some {
                1nat
            } else {
                0nat
            },
{
    match read_frame(limit, reading) {
        ReadFrame::Payload(payload, next) => {
            lemma_more_keeps_payload(limit, reading, more);
            law_any_chunking(limit, next, more, left);
            let later = read_all(limit, Reading { pending: left.pending, bytes: left.bytes + more });
            assert(seq![payload] + (read_all(limit, next).0 + later.0) =~= (seq![payload]
                + read_all(limit, next).0) + later.0);
        },
        ReadFrame::NotYet(_) => {
            let later = read_all(limit, Reading { pending: left.pending, bytes: left.bytes + more });
            lemma_stopping_is_no_loss(limit, reading, more);
            assert(Seq::<Seq<u8>>::empty() + later.0 =~= later.0);
        },
        ReadFrame::TooLarge => {},
    }
}

proof fn lemma_more_keeps_payload(limit: nat, reading: Reading, more: Seq<u8>)
    requires
        read_frame(limit, reading) is Payload,
    ensures
        ({
            let longer = Reading { pending: reading.pending, bytes: reading.bytes + more };
            match read_frame(limit, reading) {
                ReadFrame::Payload(payload, left) => read_frame(limit, longer)
                    == ReadFrame::Payload(
                    payload,
                    Reading { pending: left.pending, bytes: left.bytes + more },
                ),
                _ => true,
            }
        }),
{
    let bytes = reading.bytes;
    let all = bytes + more;
    if reading.pending is None {
        assert(all.take(4) =~= bytes.take(4));
        assert(all.skip(4) =~= bytes.skip(4) + more);
        let length = be_value(bytes.take(4)) as int;
        let body = bytes.skip(4);
        assert((body + more).take(length) =~= body.take(length));
        assert((body + more).skip(length) =~= body.skip(length) + more);
    } else {
        let length = reading.pending->0 as int;
        assert(all.take(length) =~= bytes.take(length));
        assert(all.skip(length) =~= bytes.skip(length) + more);
    }
}

proof fn lemma_stopping_is_no_loss(limit: nat, reading: Reading, more: Seq<u8>)
    requires
        read_frame(limit, reading) is NotYet,
    ensures
        ({
            let longer = Reading { pending: reading.pending, bytes: reading.bytes + more };
            match read_frame(limit, reading) {
                ReadFrame::NotYet(left) => read_frame(limit, longer) == read_frame(
                    limit,
                    Reading { pending: left.pending, bytes: left.bytes + more },
                ),
                _ => true,
            }
        }),
{
    let bytes = reading.bytes;
    let all = bytes + more;
    if reading.pending is None && bytes.len() >= 4 {
        assert(all.take(4) =~= bytes.take(4));
        assert(all.skip(4) =~= bytes.skip(4) + more);
    }
}

/// A frame is four bytes that tell the length of the payload, the most
/// significant first, and then the payload.
pub proof fn law_frame_layout(payload: Seq<u8>)
    requires
        payload.len() <= u32::MAX,
    ensures
        framed(payload).len() == payload.len() + 4,
        framed(payload)[0] == payload.len() / 0x100_0000,
        framed(payload)[1] == (payload.len() / 0x1_0000) % 0x100,
        framed(payload)[2] == (payload.len() / 0x100) % 0x100,
        framed(payload)[3] == payload.len() % 0x100,
        framed(payload).skip(4) == payload,
{
    let length = payload.len();
    reveal_with_fuel(be_bytes, 5);
    crate::ids::lemma_be_bytes_len(length, 4);
    crate::ids::lemma_be_bytes_len(length / 256, 3);
    crate::ids::lemma_be_bytes_len(length / 256 / 256, 2);
    crate::ids::lemma_be_bytes_len(length / 256 / 256 / 256, 1);
    assert(framed(payload).skip(4) =~= payload);
    let head = be_bytes(length, 4);
    assert(head[3] == length % 256);
    assert(head[2] == be_bytes(length / 256, 3)[2]);
    assert(head[1] == be_bytes(length / 256, 3)[1]);
    assert(head[0] == be_bytes(length / 256, 3)[0]);
    let second = be_bytes(length / 256, 3);
    assert(second[1] == be_bytes(length / 256 / 256, 2)[1]);
    assert(second[0] == be_bytes(length / 256 / 256, 2)[0]);
    let third = be_bytes(length / 256 / 256, 2);
    assert(third[0] == be_bytes(length / 256 / 256 / 256, 1)[0]);
}

} // verus!
