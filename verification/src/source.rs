//! Byte sources for the columnar adapters.
//!
//! A [`ByteSource`] supplies bytes by range, either from an in-memory buffer
//! or from a remote HDFS file opened through `hdfs_native`. The remote file
//! is treated as immutable for the duration of a read session: its total
//! length is fixed when the handle is opened, and [`reader_content`] names
//! the byte sequence that range reads deliver slices of.
//!
//! The remote read primitive is asynchronous while the decoders that consume
//! these sources issue blocking calls, so the remote wrappers bridge the
//! scheduling boundary: the handle owns a small dedicated runtime and each
//! call runs the asynchronous operation to completion on it, blocking the
//! calling thread only for the result. When the caller already sits on a
//! multi-threaded runtime, the bridge steps aside with `block_in_place` so
//! the event loop is never blocked.

use vstd::prelude::*;

verus! {

/// Declares `hdfs_native::Client` so handles to the remote store can cross
/// this library's signatures.
#[verifier::external_type_specification]
#[verifier::external_body]
pub struct ExClient(hdfs_native::Client);

/// Declares `hdfs_native::file::FileReader`, the per-file read capability.
#[verifier::external_type_specification]
#[verifier::external_body]
pub struct ExFileReader(hdfs_native::file::FileReader);

/// Declares `tokio::runtime::Runtime`, the dedicated executor each remote
/// handle owns for bridging its asynchronous reads.
#[verifier::external_type_specification]
#[verifier::external_body]
pub struct ExRuntime(tokio::runtime::Runtime);

/// The bytes of the file behind an open read capability. A `FileReader`
/// value pins the file's located blocks at open time and HDFS blocks are
/// immutable once written, so for the duration of a read session the content
/// behind a given reader value is fixed; positioned reads return its slices.
pub uninterp spec fn reader_content(r: hdfs_native::file::FileReader) -> Seq<u8>;

/// An open remote file: the read capability, the executor that drives its
/// asynchronous reads, and the file's total length as reported at open time.
pub struct RemoteHandle {
    reader: hdfs_native::file::FileReader,
    rt: tokio::runtime::Runtime,
    total: u64,
}

impl RemoteHandle {
    /// The bytes this handle reads slices of.
    pub closed spec fn content(&self) -> Seq<u8> {
        reader_content(self.reader)
    }

    /// The handle's length bookkeeping agrees with its content.
    pub closed spec fn wf(&self) -> bool {
        self.content().len() == self.total
    }
}

/// Relies on `hdfs_native::Client::read` to open a file for positioned reads
/// and on `hdfs_native::file::FileReader::file_length` to report the total
/// length of the bytes behind the returned reader, fixed at open time.
#[verifier::external_body]
fn open_remote(client: &hdfs_native::Client, path: &str) -> (r: Result<RemoteHandle, String>)
    ensures
        r matches Ok(h) ==> h.wf(),
{
    let built = tokio::runtime::Builder::new_multi_thread().worker_threads(2).enable_all().build();
    let rt = match built {
        Ok(rt) => rt,
        Err(e) => return Err(e.to_string()),
    };
    let opened = if tokio::runtime::Handle::try_current().is_ok() {
        tokio::task::block_in_place(|| rt.block_on(client.read(path)))
    } else {
        rt.block_on(client.read(path))
    };
    match opened {
        Ok(reader) => Ok(RemoteHandle { total: reader.file_length() as u64, reader, rt }),
        Err(e) => Err(e.to_string()),
    }
}

/// Relies on `hdfs_native::file::FileReader::read_range`: a positioned read
/// of a range that lies within the file returns exactly that slice of the
/// file's bytes. The call carries no incremental state, so repeating it
/// after a failure is always correct.
#[verifier::external_body]
fn remote_read_range(h: &RemoteHandle, offset: u64, length: u64) -> (r: Result<Vec<u8>, String>)
    requires
        h.wf(),
        offset + length <= h.content().len(),
    ensures
        r matches Ok(v) ==> v@ == reader_content(h.reader).subrange(
            offset as int,
            offset as int + length as int,
        ),
{
    let fut = h.reader.read_range(offset as usize, length as usize);
    let res = if tokio::runtime::Handle::try_current().is_ok() {
        tokio::task::block_in_place(|| h.rt.block_on(fut))
    } else {
        h.rt.block_on(fut)
    };
    match res {
        Ok(b) => Ok(b.to_vec()),
        Err(e) => Err(e.to_string()),
    }
}

/// A range-readable byte source: an in-memory buffer, or an open remote
/// file.
pub enum ByteSource {
    InMemory(Vec<u8>),
    Remote(RemoteHandle),
}

impl ByteSource {
    /// The bytes this source supplies.
    pub open spec fn content(&self) -> Seq<u8> {
        match self {
            ByteSource::InMemory(v) => v@,
            ByteSource::Remote(h) => h.content(),
        }
    }

    pub open spec fn wf(&self) -> bool {
        match self {
            ByteSource::InMemory(v) => v@.len() <= u64::MAX,
            ByteSource::Remote(h) => h.wf(),
        }
    }

    /// The total number of bytes the source holds, fixed at open time.
    pub fn total_len(&self) -> (r: u64)
        requires
            self.wf(),
        ensures
            r == self.content().len(),
    {
        match self {
            ByteSource::InMemory(v) => v.len() as u64,
            ByteSource::Remote(h) => h.total,
        }
    }

    /// Read exactly the requested range, which must lie within the source;
    /// callers clamp first. A remote read may fail (the connection can
    /// drop); the source holds no incremental state, so a failed call can
    /// simply be repeated. An in-memory read always succeeds.
    pub fn read_range(&self, offset: u64, length: u64) -> (r: Result<Vec<u8>, String>)
        requires
            self.wf(),
            offset + length <= self.content().len(),
        ensures
            (r matches Ok(v) ==> v@ == self.content().subrange(
                offset as int,
                offset as int + length as int,
            )),
            self is InMemory ==> r is Ok,
    {
        match self {
            ByteSource::InMemory(v) => {
                let n: usize = v.len();
                let start: usize = offset as usize;
                let len_u: usize = length as usize;
                let mut out: Vec<u8> = Vec::new();
                let mut i: usize = 0;
                while i < len_u
                    invariant
                        self is InMemory,
                        v@ == self.content(),
                        n == v@.len(),
                        offset + length <= v@.len(),
                        start == offset,
                        len_u == length,
                        i <= len_u,
                        out@ == v@.subrange(offset as int, offset as int + i as int),
                    decreases len_u - i,
                {
                    out.push(v[start + i]);
                    i = i + 1;
                    proof {
                        assert(out@ =~= v@.subrange(offset as int, offset as int + i as int));
                    }
                }
                Ok(out)
            }
            ByteSource::Remote(h) => remote_read_range(h, offset, length),
        }
    }
}

/// Open a remote file as a byte source.
pub fn open_remote_source(client: &hdfs_native::Client, path: &str) -> (r: Result<
    ByteSource,
    String,
>)
    ensures
        r matches Ok(s) ==> s.wf(),
{
    match open_remote(client, path) {
        Ok(h) => Ok(ByteSource::Remote(h)),
        Err(e) => Err(e),
    }
}

} // verus!
