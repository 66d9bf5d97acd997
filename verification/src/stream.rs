//! Sequential pull-based byte stream over a range-readable source.
//!
//! Some decoders consume a file through a classic blocking interface: "fill
//! a buffer of capacity `C`, tell me how many bytes you wrote, zero means
//! end of stream". The shim serves that interface from a byte source by
//! keeping a cursor and turning each fill into one range read at the cursor,
//! clamped so the stream never reads past end-of-file. A failed fill leaves
//! the cursor where it was, so retrying the same call re-requests the same
//! range.

use crate::chunk::chunk_of;
use crate::chunk::clamped_len;
use crate::chunk::clamped_length;
use crate::source::ByteSource;
use vstd::prelude::*;

verus! {

/// A byte source plus a sequential cursor: the state of a pull-based
/// sequential reader. The cursor starts at zero and advances monotonically
/// by the number of bytes each fill delivers; it never passes the total
/// length.
pub struct SequentialStreamShim {
    pub source: ByteSource,
    pub offset: u64,
}

impl SequentialStreamShim {
    /// The bytes the stream delivers, in order, across fills.
    pub open spec fn content(&self) -> Seq<u8> {
        self.source.content()
    }

    /// Cursor invariant: `0 <= offset <= total_length`.
    pub open spec fn wf(&self) -> bool {
        &&& self.source.wf()
        &&& self.offset <= self.content().len()
    }

    /// The part of the stream already delivered: everything before the
    /// cursor.
    pub open spec fn delivered(&self) -> Seq<u8> {
        self.content().subrange(0, self.offset as int)
    }

    /// A fresh stream over a source, with the cursor at the start.
    pub fn new(source: ByteSource) -> (r: Self)
        requires
            source.wf(),
        ensures
            r.wf(),
            r.content() == source.content(),
            r.offset == 0,
    {
        SequentialStreamShim { source, offset: 0 }
    }

    /// Fill a buffer of the given capacity from the cursor onward.
    ///
    /// At end of stream the call returns zero bytes, succeeds, and changes
    /// nothing, so it can be repeated any number of times. Otherwise it
    /// delivers `min(capacity, total - offset)` bytes — the next slice of
    /// the file — and advances the cursor by exactly that many. On failure
    /// the cursor does not move: a retried call re-requests the same range.
    pub fn fill(&mut self, capacity: u64) -> (r: Result<Vec<u8>, String>)
        requires
            old(self).wf(),
        ensures
            final(self).wf(),
            final(self).source.content() == old(self).source.content(),
            (r matches Ok(v) ==> {
                &&& v@ == chunk_of(old(self).content(), old(self).offset, capacity)
                &&& final(self).offset == old(self).offset + v@.len()
                &&& final(self).delivered() == old(self).delivered() + v@
            }),
            (r is Err ==> *final(self) == *old(self)),
            old(self).offset == old(self).content().len() ==> (r matches Ok(v) && v@.len() == 0
                && *final(self) == *old(self)),
            old(self).source is InMemory ==> r is Ok,
    {
        let total = self.source.total_len();
        if self.offset >= total {
            let empty: Vec<u8> = Vec::new();
            proof {
                assert(chunk_of(self.content(), self.offset, capacity) =~= Seq::<u8>::empty());
                assert(self.delivered() + empty@ =~= self.delivered());
            }
            return Ok(empty);
        }
        let want = clamped_length(self.offset, capacity, total);
        match self.source.read_range(self.offset, want) {
            Ok(v) => {
                let ghost prev = *self;
                self.offset = self.offset + want;
                proof {
                    assert(v@ == chunk_of(prev.content(), prev.offset, capacity));
                    assert(self.delivered() =~= prev.delivered() + v@);
                }
                Ok(v)
            }
            Err(e) => Err(e),
        }
    }
}

/// Sequential round trip: what earlier fills delivered, extended by the
/// chunk one more fill delivers, is again the stream's delivered prefix; and
/// once the cursor reaches the total length, the concatenation of everything
/// delivered is the entire file, byte for byte.
pub proof fn lemma_fill_concatenation(content: Seq<u8>, old_off: int, new_off: int, chunk: Seq<u8>)
    requires
        0 <= old_off <= new_off <= content.len(),
        chunk == content.subrange(old_off, new_off),
    ensures
        content.subrange(0, old_off) + chunk == content.subrange(0, new_off),
        new_off == content.len() ==> content.subrange(0, old_off) + chunk == content,
{
    assert(content.subrange(0, old_off) + chunk =~= content.subrange(0, new_off));
    if new_off == content.len() {
        assert(content.subrange(0, new_off) =~= content);
    }
}

} // verus!
