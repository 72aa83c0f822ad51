//! Checkpoints streamed as an archive, in chunks of fixed size.
use crate::order::{all_places, sort_places, sorted};
use vstd::prelude::*;

verus! {

/// Bytes per chunk of an archive.
pub const CHUNK_BYTES: usize = 2_097_152;

/// A checkpoint to be uploaded: its step and the directory that holds it.
pub struct CheckpointJob {
    pub step: u64,
    pub source: String,
}

/// All the bytes of some chunks, in order.
pub open spec fn joined_chunks(chunks: Seq<Vec<u8>>) -> Seq<u8>
    decreases chunks.len(),
{
    if chunks.len() == 0 {
        Seq::empty()
    } else {
        joined_chunks(chunks.drop_last()) + chunks.last()@
    }
}

/// Collects bytes until a chunk is full.
pub struct ChunkWriter {
    buffer: Vec<u8>,
}

impl View for ChunkWriter {
    type V = Seq<u8>;

    closed spec fn view(&self) -> Seq<u8> {
        self.buffer@
    }
}

/// What writing bytes gives: whole chunks, which with what is held back then
/// hold what was held back before and the bytes.
pub open spec fn wrote(
    before: Seq<u8>,
    bytes: Seq<u8>,
    chunks: Seq<Vec<u8>>,
    after: Seq<u8>,
) -> bool {
    &&& joined_chunks(chunks) + after == before + bytes
    &&& forall|i: int| 0 <= i < chunks.len() ==> (#[trigger] chunks[i])@.len() == CHUNK_BYTES
}

impl ChunkWriter {
    /// Less than a chunk is held back.
    pub open spec fn wf(self) -> bool {
        self@.len() < CHUNK_BYTES
    }

    /// Nothing is held back.
    pub fn new() -> (writer: ChunkWriter)
        ensures
            writer.wf(),
            writer@ == Seq::<u8>::empty(),
    {
        ChunkWriter { buffer: Vec::new() }
    }

    /// Takes bytes and gives the chunks that they fill, each of them whole;
    /// what fills none is held back.
    pub fn write(&mut self, bytes: &[u8]) -> (chunks: Vec<Vec<u8>>)
        requires
            old(self).wf(),
        ensures
            final(self).wf(),
            wrote(old(self)@, bytes@, chunks@, final(self)@),
    {
        let mut chunks: Vec<Vec<u8>> = Vec::new();
        let mut at: usize = 0;
        assert(bytes@.take(0) =~= Seq::<u8>::empty());
        assert(joined_chunks(chunks@) + self@ =~= old(self)@ + bytes@.take(0));
        while at < bytes.len()
            invariant
                self.wf(),
                at <= bytes@.len(),
                joined_chunks(chunks@) + self@ == old(self)@ + bytes@.take(at as int),
                forall|i: int|
                    0 <= i < chunks@.len() ==> (#[trigger] chunks@[i])@.len() == CHUNK_BYTES,
            decreases bytes@.len() - at,
        {
            let available: usize = CHUNK_BYTES - self.buffer.len();
            let left: usize = bytes.len() - at;
            let count: usize = if available < left { available } else { left };
            let ghost before = self.buffer@;
            self.take_bytes(bytes, at, count);
            proof {
                assert(bytes@.take(at + count) =~= bytes@.take(at as int) + bytes@.subrange(
                    at as int,
                    at + count,
                ));
                assert(joined_chunks(chunks@) + (before + bytes@.subrange(at as int, at + count))
                    =~= (joined_chunks(chunks@) + before) + bytes@.subrange(
                    at as int,
                    at + count,
                ));
                assert((old(self)@ + bytes@.take(at as int)) + bytes@.subrange(
                    at as int,
                    at + count,
                ) =~= old(self)@ + bytes@.take(at + count));
            }
            at = at + count;
            if self.buffer.len() == CHUNK_BYTES {
                let ghost done = chunks@;
                let mut full: Vec<u8> = Vec::new();
                std::mem::swap(&mut full, &mut self.buffer);
                chunks.push(full);
                proof {
                    assert(chunks@.drop_last() =~= done);
                    assert(joined_chunks(chunks@) + Seq::<u8>::empty() =~= joined_chunks(chunks@));
                    assert(self@ =~= Seq::<u8>::empty());
                }
            }
        }
        assert(bytes@.take(at as int) =~= bytes@);
        chunks
    }

    fn take_bytes(&mut self, bytes: &[u8], from: usize, count: usize)
        requires
            from + count <= bytes@.len(),
        ensures
            final(self).buffer@ == old(self).buffer@ + bytes@.subrange(from as int, from + count),
    {
        let mut i: usize = 0;
        assert(self.buffer@ =~= old(self).buffer@ + bytes@.subrange(from as int, from as int));
        while i < count
            invariant
                i <= count,
                from + count <= bytes.len(),
                self.buffer@ == old(self).buffer@ + bytes@.subrange(from as int, from + i),
            decreases count - i,
        {
            self.buffer.push(bytes[from + i]);
            assert(self.buffer@ =~= old(self).buffer@ + bytes@.subrange(from as int, from + i + 1));
            i = i + 1;
        }
    }

    /// Gives what is held back, unless that is nothing.
    pub fn flush(&mut self) -> (chunk: Option<Vec<u8>>)
        requires
            old(self).wf(),
        ensures
            final(self).wf(),
            final(self)@ == Seq::<u8>::empty(),
            match chunk {
                Some(bytes) => old(self)@.len() > 0 && bytes@ == old(self)@,
                None => old(self)@.len() == 0,
            },
    {
        if self.buffer.len() == 0 {
            return None;
        }
        let mut rest: Vec<u8> = Vec::new();
        std::mem::swap(&mut rest, &mut self.buffer);
        Some(rest)
    }

    /// Gives what is held back at the end, unless that is nothing.
    pub fn finish(self) -> (chunk: Option<Vec<u8>>)
        requires
            self.wf(),
        ensures
            match chunk {
                Some(bytes) => self@.len() > 0 && bytes@ == self@,
                None => self@.len() == 0,
            },
    {
        if self.buffer.len() == 0 {
            None
        } else {
            Some(self.buffer)
        }
    }
}

/// The message when nobody takes chunks any more.
pub fn chunk_refused() -> (message: String)
    ensures
        message@ == "checkpoint RPC ended"@,
{
    "checkpoint RPC ended".to_owned()
}

/// How an entry of a checkpoint's directory goes into the archive.
#[derive(Clone, Copy, Debug, PartialEq, Eq, Structural)]
pub enum Entry {
    Directory,
    File,
}

/// A directory is archived with all it holds, anything else by itself.
pub fn entry_kind(is_dir: bool) -> (entry: Entry)
    ensures
        entry == if is_dir { Entry::Directory } else { Entry::File },
{
    if is_dir { Entry::Directory } else { Entry::File }
}

/// The order in which the entries of a directory are archived: by name.
pub fn archive_order(names: &Vec<Vec<u8>>) -> (places: Vec<usize>)
    ensures
        all_places(places@, names@.len()),
        sorted(names@, places@),
{
    sort_places(names)
}

/// All the bytes that some writes bring.
pub open spec fn joined_writes(writes: Seq<Seq<u8>>) -> Seq<u8>
    decreases writes.len(),
{
    if writes.len() == 0 {
        Seq::empty()
    } else {
        joined_writes(writes.drop_last()) + writes.last()
    }
}

/// All the bytes that some writes gave.
pub open spec fn joined_given(given: Seq<Seq<Vec<u8>>>) -> Seq<u8>
    decreases given.len(),
{
    if given.len() == 0 {
        Seq::empty()
    } else {
        joined_given(given.drop_last()) + joined_chunks(given.last())
    }
}

/// An archive's history: what each write brought, the chunks that it gave, and
/// what was held back then.
pub open spec fn is_history(
    writes: Seq<Seq<u8>>,
    given: Seq<Seq<Vec<u8>>>,
    kept: Seq<Seq<u8>>,
) -> bool {
    &&& given.len() == writes.len()
    &&& kept.len() == writes.len() + 1
    &&& kept[0] == Seq::<u8>::empty()
    &&& forall|i: int|
        #![trigger writes[i]]
        0 <= i < writes.len() ==> wrote(kept[i], writes[i], given[i], kept[i + 1])
}

/// The archive arrives whole: what all the writes gave, followed by what is
/// held back at the end, is what was written, in order.
pub proof fn law_archive_arrives_whole(
    writes: Seq<Seq<u8>>,
    given: Seq<Seq<Vec<u8>>>,
    kept: Seq<Seq<u8>>,
)
    requires
        is_history(writes, given, kept),
    ensures
        joined_given(given) + kept.last() == joined_writes(writes),
    decreases writes.len(),
{
    if writes.len() == 0 {
        assert(joined_given(given) + kept.last() =~= joined_writes(writes));
    } else {
        let n = writes.len() - 1;
        assert(writes[n] == writes.last());
        assert(is_history(writes.drop_last(), given.drop_last(), kept.drop_last())) by {
            assert forall|i: int|
                #![trigger writes.drop_last()[i]]
                0 <= i < n implies wrote(
                kept.drop_last()[i],
                writes.drop_last()[i],
                given.drop_last()[i],
                kept.drop_last()[i + 1],
            ) by {
                assert(writes[i] == writes.drop_last()[i]);
            }
        }
        law_archive_arrives_whole(writes.drop_last(), given.drop_last(), kept.drop_last());
        let before = joined_given(given.drop_last());
        let last = joined_chunks(given.last());
        assert((before + last) + kept.last() =~= before + (last + kept.last()));
        assert(before + (kept[n] + writes.last()) =~= (before + kept[n]) + writes.last());
        assert(kept.drop_last().last() == kept[n]);
    }
}

proof fn lemma_chunk_at(chunks: Seq<Vec<u8>>, i: int)
    requires
        0 <= i < chunks.len(),
        forall|k: int| 0 <= k < chunks.len() ==> (#[trigger] chunks[k])@.len() == CHUNK_BYTES,
    ensures
        joined_chunks(chunks).len() == CHUNK_BYTES * chunks.len(),
        joined_chunks(chunks).subrange(CHUNK_BYTES * i, CHUNK_BYTES * i + CHUNK_BYTES)
            == chunks[i]@,
    decreases chunks.len(),
{
    let shorter = chunks.drop_last();
    assert forall|k: int| 0 <= k < shorter.len() implies (#[trigger] shorter[k])@.len()
        == CHUNK_BYTES by {
        assert(shorter[k] == chunks[k]);
    }
    assert(chunks[chunks.len() - 1] == chunks.last());
    if shorter.len() > 0 {
        lemma_chunk_at(shorter, if i < shorter.len() { i } else { 0 });
    } else {
        assert(joined_chunks(shorter) =~= Seq::<u8>::empty());
    }
    let all = joined_chunks(chunks);
    assert(all == joined_chunks(shorter) + chunks.last()@);
    if i < shorter.len() {
        assert(all.subrange(CHUNK_BYTES * i, CHUNK_BYTES * i + CHUNK_BYTES) =~= joined_chunks(
            shorter,
        ).subrange(CHUNK_BYTES * i, CHUNK_BYTES * i + CHUNK_BYTES));
    } else {
        assert(all.subrange(CHUNK_BYTES * i, CHUNK_BYTES * i + CHUNK_BYTES) =~= chunks.last()@);
    }
}

/// A chunk is two mebibytes of what was held back and written, and chunk `i` is
/// the one behind `i` others; what is held back then is the rest.
pub proof fn law_chunks_are_cut_in_order(
    before: Seq<u8>,
    bytes: Seq<u8>,
    chunks: Seq<Vec<u8>>,
    after: Seq<u8>,
)
    requires
        wrote(before, bytes, chunks, after),
    ensures
        ({
            let all = before + bytes;
            &&& all.len() == 2_097_152 * chunks.len() + after.len()
            &&& forall|i: int|
                0 <= i < chunks.len() ==> (#[trigger] chunks[i])@ == all.subrange(
                    2_097_152 * i,
                    2_097_152 * i + 2_097_152,
                )
            &&& all.skip(2_097_152 * chunks.len() as int) == after
        }),
{
    let all = before + bytes;
    let cut = joined_chunks(chunks);
    if chunks.len() > 0 {
        lemma_chunk_at(chunks, 0);
    } else {
        assert(cut =~= Seq::<u8>::empty());
    }
    assert(all == cut + after);
    assert forall|i: int| 0 <= i < chunks.len() implies (#[trigger] chunks[i])@ == all.subrange(
        2_097_152 * i,
        2_097_152 * i + 2_097_152,
    ) by {
        lemma_chunk_at(chunks, i);
        assert(all.subrange(2_097_152 * i, 2_097_152 * i + 2_097_152) =~= cut.subrange(
            2_097_152 * i,
            2_097_152 * i + 2_097_152,
        ));
    }
    assert(all.skip(2_097_152 * chunks.len() as int) =~= after);
}

} // verus!
