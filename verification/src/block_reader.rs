use vstd::prelude::*;

use crate::bytes::{copy_range, le_u32_at, read_le_u32};
use crate::error::DatError;
use crate::range_reader::RangeReader;

verus! {

/// Well-formedness of the block chain that starts at `offset` and owes
/// `size` payload bytes: every request the chain reader issues lies inside
/// `data`, and no next pointer is zero while payload bytes are still owed.
///
/// Each physical block is `block_size` bytes: a 4-byte little-endian
/// absolute offset of the next block, then `block_size - 4` payload bytes.
/// The final block is requested with only `size + 4` bytes and its pointer
/// is never dereferenced.
pub open spec fn chain_wf(data: Seq<u8>, offset: int, size: int, block_size: int) -> bool
    decreases size,
{
    if size <= 0 {
        true
    } else if size + 4 <= block_size {
        0 <= offset && offset + size + 4 <= data.len()
    } else if block_size < 8 {
        false
    } else {
        &&& 0 <= offset
        &&& offset + block_size <= data.len()
        &&& le_u32_at(data, offset) != 0
        &&& chain_wf(data, le_u32_at(data, offset), size - (block_size - 4), block_size)
    }
}

/// The `size` payload bytes of the chain starting at `offset`:
/// the payloads of its blocks concatenated, the final block truncated to
/// the bytes still owed.
pub open spec fn chain_payload(data: Seq<u8>, offset: int, size: int, block_size: int) -> Seq<u8>
    recommends
        chain_wf(data, offset, size, block_size),
    decreases size,
{
    if size <= 0 {
        Seq::empty()
    } else if size + 4 <= block_size {
        data.subrange(offset + 4, offset + 4 + size)
    } else if block_size < 8 {
        Seq::empty()
    } else {
        data.subrange(offset + 4, offset + block_size) + chain_payload(
            data,
            le_u32_at(data, offset),
            size - (block_size - 4),
            block_size,
        )
    }
}

/// Whether the chain starting at `offset` ends in a zero next pointer
/// while payload bytes are still owed (with every block up to that point
/// inside `data`).
pub open spec fn chain_truncated(data: Seq<u8>, offset: int, size: int, block_size: int) -> bool
    decreases size,
{
    if size <= 0 {
        false
    } else if size + 4 <= block_size {
        false
    } else if block_size < 8 {
        false
    } else if !(0 <= offset && offset + block_size <= data.len()) {
        false
    } else if le_u32_at(data, offset) == 0 {
        true
    } else {
        chain_truncated(data, le_u32_at(data, offset), size - (block_size - 4), block_size)
    }
}

/// Round trip: a well-formed chain's payload has exactly the owed length.
pub proof fn lemma_chain_payload_len(data: Seq<u8>, offset: int, size: int, block_size: int)
    requires
        0 <= size,
        chain_wf(data, offset, size, block_size),
    ensures
        chain_payload(data, offset, size, block_size).len() == size,
    decreases size,
{
    if size <= 0 {
    } else if size + 4 <= block_size {
    } else {
        lemma_chain_payload_len(
            data,
            le_u32_at(data, offset),
            size - (block_size - 4),
            block_size,
        );
    }
}

/// An entry that fits a single block is served by one request of exactly
/// `size + 4` bytes: the payload is the bytes right after the four-byte
/// pointer, and the pointer is never dereferenced. This covers both an
/// entry smaller than one block and the boundary where `size + 4` equals
/// `block_size` exactly.
pub proof fn lemma_single_block_chain(data: Seq<u8>, offset: int, size: int, block_size: int)
    requires
        0 < size,
        size + 4 <= block_size,
        0 <= offset,
        offset + size + 4 <= data.len(),
    ensures
        chain_wf(data, offset, size, block_size),
        chain_payload(data, offset, size, block_size) == data.subrange(offset + 4, offset + 4
            + size),
{
}

/// Reassembles payload bytes from a linked list of fixed-size physical
/// blocks through a [`RangeReader`].
pub struct DatBlockReader {}

impl DatBlockReader {
    /// Returns exactly `size` payload bytes of the block chain that starts
    /// at `offset`, reading the pointer and the payload of each block in a
    /// single request of `min(block_size, left + 4)` bytes.
    ///
    /// A block size below 8 carries no payload and fails with
    /// `InvalidGeometry`; a zero next pointer while bytes are still owed
    /// fails with `TruncatedChain`; backend errors propagate. On a
    /// reliable backend the read succeeds exactly on well-formed chains.
    pub fn read<R: RangeReader>(reader: &mut R, offset: u32, size: u32, block_size: u32) -> (r:
        Result<Vec<u8>, DatError>)
        ensures
            final(reader).data() == old(reader).data(),
            final(reader).reliable() == old(reader).reliable(),
            r == Err::<Vec<u8>, DatError>(DatError::InvalidGeometry) <==> block_size < 8,
            r matches Ok(v) ==> {
                &&& chain_wf(old(reader).data(), offset as int, size as int, block_size as int)
                &&& v@ == chain_payload(
                    old(reader).data(),
                    offset as int,
                    size as int,
                    block_size as int,
                )
                &&& v@.len() == size as int
            },
            old(reader).reliable() && block_size >= 8 && chain_wf(
                old(reader).data(),
                offset as int,
                size as int,
                block_size as int,
            ) ==> r is Ok,
            r == Err::<Vec<u8>, DatError>(DatError::TruncatedChain) ==> chain_truncated(
                old(reader).data(),
                offset as int,
                size as int,
                block_size as int,
            ),
            old(reader).reliable() && block_size >= 8 && chain_truncated(
                old(reader).data(),
                offset as int,
                size as int,
                block_size as int,
            ) ==> r == Err::<Vec<u8>, DatError>(DatError::TruncatedChain),
    {
        if block_size < 8 {
            return Err(DatError::InvalidGeometry);
        }
        let ghost gdata = reader.data();
        let ghost grel = reader.reliable();
        let mut out: Vec<u8> = Vec::new();
        let mut left: u32 = size;
        let mut cursor: u32 = offset;
        while left > 0
            invariant
                8 <= block_size,
                gdata == old(reader).data(),
                grel == old(reader).reliable(),
                reader.data() == gdata,
                reader.reliable() == grel,
                left <= size,
                out@.len() + left == size,
                chain_wf(gdata, offset as int, size as int, block_size as int) <==> chain_wf(
                    gdata,
                    cursor as int,
                    left as int,
                    block_size as int,
                ),
                chain_wf(gdata, offset as int, size as int, block_size as int) ==> chain_payload(
                    gdata,
                    offset as int,
                    size as int,
                    block_size as int,
                ) == out@ + chain_payload(gdata, cursor as int, left as int, block_size as int),
                chain_truncated(gdata, offset as int, size as int, block_size as int)
                    <==> chain_truncated(gdata, cursor as int, left as int, block_size as int),
            decreases left,
        {
            let last = left as u64 + 4 <= block_size as u64;
            let req: usize = if last {
                (left + 4) as usize
            } else {
                block_size as usize
            };
            let block = match reader.read_range(cursor, req) {
                Ok(b) => b,
                Err(e) => {
                    proof {
                        if grel {
                            assert(cursor as int + req as int > gdata.len());
                            assert(!chain_wf(gdata, cursor as int, left as int, block_size as int));
                            assert(!chain_truncated(
                                gdata,
                                cursor as int,
                                left as int,
                                block_size as int,
                            ));
                        }
                    }
                    return Err(e);
                },
            };
            if last {
                let mut payload = copy_range(&block, 4, req);
                out.append(&mut payload);
                proof {
                    assert(block@.subrange(4, req as int) =~= gdata.subrange(
                        cursor as int + 4,
                        cursor as int + 4 + left as int,
                    ));
                }
                left = 0;
            } else {
                let next = read_le_u32(&block, 0);
                proof {
                    assert(le_u32_at(block@, 0) == le_u32_at(gdata, cursor as int)) by {
                        assert(block@[0] == gdata[cursor as int]);
                        assert(block@[1] == gdata[cursor as int + 1]);
                        assert(block@[2] == gdata[cursor as int + 2]);
                        assert(block@[3] == gdata[cursor as int + 3]);
                    }
                }
                if next == 0 {
                    proof {
                        assert(chain_truncated(
                            gdata,
                            cursor as int,
                            left as int,
                            block_size as int,
                        ));
                        assert(!chain_wf(gdata, cursor as int, left as int, block_size as int));
                    }
                    return Err(DatError::TruncatedChain);
                }
                let mut payload = copy_range(&block, 4, block_size as usize);
                out.append(&mut payload);
                proof {
                    assert(block@.subrange(4, block_size as int) =~= gdata.subrange(
                        cursor as int + 4,
                        cursor as int + block_size as int,
                    ));
                }
                left = left - (block_size - 4);
                cursor = next;
            }
        }
        proof {
            assert(chain_payload(gdata, cursor as int, left as int, block_size as int)
                =~= Seq::<u8>::empty());
            if chain_wf(gdata, offset as int, size as int, block_size as int) {
                assert(out@ =~= chain_payload(
                    gdata,
                    offset as int,
                    size as int,
                    block_size as int,
                ));
            }
        }
        Ok(out)
    }
}

} // verus!
