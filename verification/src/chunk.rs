//! Offset/length bookkeeping for random-access chunk reads.
//!
//! A columnar decoder may ask for a byte range that runs past the end of the
//! file; the adapter clamps the requested length down to what the file can
//! supply instead of failing, and never reads past end-of-file.

use crate::source::ByteSource;
use vstd::prelude::*;

verus! {

/// The number of bytes a range request `(offset, length)` actually delivers
/// from a file of `total` bytes: the requested length, clamped down so that
/// the read never crosses end-of-file.
pub open spec fn clamped_len(offset: u64, length: u64, total: u64) -> int {
    if offset >= total {
        0
    } else if offset + length > total {
        total - offset
    } else {
        length as int
    }
}

/// Clamp a range request against the file length.
pub fn clamped_length(offset: u64, length: u64, total: u64) -> (r: u64)
    ensures
        r == clamped_len(offset, length, total),
        r != 0 ==> offset + r <= total,
{
    if offset >= total {
        0
    } else if length > total - offset {
        total - offset
    } else {
        length
    }
}

/// A request that stays within the file is not clamped: it delivers exactly
/// the requested number of bytes.
pub proof fn lemma_in_bounds_request_is_exact(offset: u64, length: u64, total: u64)
    requires
        offset + length <= total,
    ensures
        clamped_len(offset, length, total) == length,
{
}

/// A request that starts inside the file but over-asks is clamped to the
/// remainder of the file: it delivers exactly `total - offset` bytes and
/// never reads past end-of-file.
pub proof fn lemma_over_ask_is_clamped(offset: u64, length: u64, total: u64)
    requires
        offset < total,
        offset + length > total,
    ensures
        clamped_len(offset, length, total) == total - offset,
        offset + clamped_len(offset, length, total) <= total,
{
}

/// The bytes a clamped range request `(offset, length)` delivers from
/// `content`: the requested slice, cut short at end-of-file, and empty when
/// the offset lies at or past end-of-file.
pub open spec fn chunk_of(content: Seq<u8>, offset: u64, length: u64) -> Seq<u8> {
    if offset as int >= content.len() {
        Seq::<u8>::empty()
    } else if offset + length > content.len() {
        content.subrange(offset as int, content.len() as int)
    } else {
        content.subrange(offset as int, offset as int + length as int)
    }
}

/// A clamped chunk holds exactly the clamped number of bytes.
pub proof fn lemma_chunk_len(content: Seq<u8>, offset: u64, length: u64)
    requires
        content.len() <= u64::MAX,
    ensures
        chunk_of(content, offset, length).len() == clamped_len(
            offset,
            length,
            content.len() as u64,
        ),
{
}

/// Adapts a byte source to the random-access contract of self-describing
/// columnar decoders: fetch an arbitrary byte range, clamped at end-of-file,
/// with no state besides the source itself, so any two fetches are
/// independent and safe to repeat after a transient failure.
pub struct RandomAccessChunkAdapter {
    pub source: ByteSource,
}

impl RandomAccessChunkAdapter {
    pub open spec fn wf(&self) -> bool {
        self.source.wf()
    }

    /// The bytes the adapter serves ranges of.
    pub open spec fn content(&self) -> Seq<u8> {
        self.source.content()
    }

    pub fn new(source: ByteSource) -> (r: Self)
        requires
            source.wf(),
        ensures
            r.wf(),
            r.content() == source.content(),
    {
        RandomAccessChunkAdapter { source }
    }

    /// The total length of the underlying file.
    pub fn total_len(&self) -> (r: u64)
        requires
            self.wf(),
        ensures
            r == self.content().len(),
    {
        self.source.total_len()
    }

    /// Fetch a byte range. A request that runs past end-of-file is clamped,
    /// never refused: the caller may over-ask and receives what the file can
    /// supply. Fetches hold no incremental state, so repeating one after a
    /// failure is always correct; on an in-memory source a fetch always
    /// succeeds.
    pub fn fetch_bytes(&self, offset: u64, length: u64) -> (r: Result<Vec<u8>, String>)
        requires
            self.wf(),
        ensures
            (r matches Ok(v) ==> v@ == chunk_of(self.content(), offset, length)),
            self.source is InMemory ==> r is Ok,
    {
        let total = self.source.total_len();
        let want = clamped_length(offset, length, total);
        if want == 0 {
            let empty: Vec<u8> = Vec::new();
            proof {
                if (offset as int) < self.content().len() {
                    assert(chunk_of(self.content(), offset, length) =~= Seq::<u8>::empty());
                }
            }
            Ok(empty)
        } else {
            self.source.read_range(offset, want)
        }
    }
}

} // verus!
