use vstd::prelude::*;

use crate::error::DatError;

verus! {

/// The capability common to all archive backends: read exactly `length`
/// bytes at absolute byte offset `offset`, never fewer.
///
/// A backend may run over a local file, an HTTP server that honours
/// byte-range requests, or a remote object store; each implementation
/// exposes the backing archive's bytes as `data()`. Calls are
/// position-independent: every read is specified against `data()` alone,
/// so successive calls with arbitrary offsets behave identically to
/// seeking and reading.
pub trait RangeReader {
    /// The full byte content of the backing archive. Verified backends
    /// override this; the default, for backends outside the verifier's
    /// reach, leaves the content unconstrained.
    open spec fn data(&self) -> Seq<u8> {
        arbitrary()
    }

    /// Whether the backend is free of transient failures. A reliable
    /// backend succeeds on every in-bounds request; an unreliable one
    /// (a network transport, say) may fail at any time.
    open spec fn reliable(&self) -> bool {
        false
    }

    /// Reads exactly `length` bytes at `offset`. A short read never
    /// happens: the result is either the exact requested window of
    /// `data()` or an error.
    fn read_range(&mut self, offset: u32, length: usize) -> (r: Result<Vec<u8>, DatError>)
        ensures
            final(self).data() == old(self).data(),
            final(self).reliable() == old(self).reliable(),
            match r {
                Ok(bytes) => {
                    &&& offset as int + length as int <= old(self).data().len()
                    &&& bytes@ == old(self).data().subrange(
                        offset as int,
                        offset as int + length as int,
                    )
                },
                Err(e) => {
                    &&& e.is_backend_kind()
                    &&& !(old(self).reliable() && offset as int + length as int <= old(
                        self,
                    ).data().len())
                },
            },
    ;
}

/// An in-memory backend: the archive held whole in a byte vector.
///
/// It is reliable: every in-bounds request succeeds, and an out-of-bounds
/// request fails with `InvalidOffset`.
pub struct MemoryRangeReader {
    pub bytes: Vec<u8>,
}

impl MemoryRangeReader {
    pub fn new(bytes: Vec<u8>) -> (r: MemoryRangeReader)
        ensures
            r.data() == bytes@,
            r.reliable(),
    {
        MemoryRangeReader { bytes }
    }
}

impl RangeReader for MemoryRangeReader {
    open spec fn data(&self) -> Seq<u8> {
        self.bytes@
    }

    open spec fn reliable(&self) -> bool {
        true
    }

    fn read_range(&mut self, offset: u32, length: usize) -> (r: Result<Vec<u8>, DatError>) {
        if (offset as usize) > self.bytes.len() || length > self.bytes.len() - (offset as usize) {
            return Err(DatError::InvalidOffset);
        }
        Ok(crate::bytes::copy_range(&self.bytes, offset as usize, offset as usize + length))
    }
}

/// What interpreting an HTTP range response yields. On 206 Partial Content
/// the body is the requested range itself; on any other success status the
/// body is the whole archive and the requested window is cut out of it; on
/// 416 or any non-success status the range is unavailable. A body that
/// cannot cover the request is a short read.
pub open spec fn spec_http_range_response(
    status: u16,
    body: Seq<u8>,
    offset: int,
    length: int,
) -> Result<Seq<u8>, DatError> {
    if status == 206 {
        if body.len() == length {
            Ok(body)
        } else {
            Err(DatError::ShortRead)
        }
    } else if 200 <= status < 300 {
        if offset + length <= body.len() {
            Ok(body.subrange(offset, offset + length))
        } else {
            Err(DatError::ShortRead)
        }
    } else {
        Err(DatError::RangeUnavailable)
    }
}

/// Interprets the response to an HTTP GET carrying the header
/// `Range: bytes=offset-(offset+length-1)`: `status` is the response
/// status code and `body` the full response body.
///
/// A server that answers 200 with the complete file instead of 206 with
/// the range still produces the correct slice.
pub fn http_range_response(status: u16, body: Vec<u8>, offset: u32, length: usize) -> (r: Result<
    Vec<u8>,
    DatError,
>)
    ensures
        match r {
            Ok(v) => spec_http_range_response(status, body@, offset as int, length as int)
                == Ok::<Seq<u8>, DatError>(v@),
            Err(e) => spec_http_range_response(status, body@, offset as int, length as int)
                == Err::<Seq<u8>, DatError>(e),
        },
{
    if status == 206 {
        if body.len() == length {
            Ok(body)
        } else {
            Err(DatError::ShortRead)
        }
    } else if 200 <= status && status < 300 {
        let blen = body.len();
        if offset as usize <= blen && length <= blen - offset as usize {
            Ok(crate::bytes::copy_range(&body, offset as usize, offset as usize + length))
        } else {
            Err(DatError::ShortRead)
        }
    } else {
        Err(DatError::RangeUnavailable)
    }
}

/// Backend equivalence: two backends serving the same archive return
/// byte-identical buffers for the same request. `r1` and `r2` are the
/// buffers the two backends' successful `read_range(offset, length)`
/// calls returned, each pinned by the `RangeReader` contract to the same
/// window of the shared content.
pub proof fn lemma_backend_equivalence(
    data1: Seq<u8>,
    data2: Seq<u8>,
    offset: int,
    length: int,
    r1: Seq<u8>,
    r2: Seq<u8>,
)
    requires
        data1 == data2,
        r1 == data1.subrange(offset, offset + length),
        r2 == data2.subrange(offset, offset + length),
    ensures
        r1 == r2,
{
}

/// Idempotence: repeated `read_range(offset, length)` calls on one backend
/// return the same bytes. A call leaves `data()` unchanged, so the content
/// `data2` seen by the second call equals the content `data1` seen by the
/// first, and both results are the same window of it.
pub proof fn lemma_read_range_idempotent(
    data1: Seq<u8>,
    data2: Seq<u8>,
    offset: int,
    length: int,
    r1: Seq<u8>,
    r2: Seq<u8>,
)
    requires
        data2 == data1,
        r1 == data1.subrange(offset, offset + length),
        r2 == data2.subrange(offset, offset + length),
    ensures
        r1 == r2,
{
}

} // verus!
