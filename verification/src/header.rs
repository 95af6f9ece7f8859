use vstd::prelude::*;

use crate::bytes::{copy_range, le_u32_at, read_le_u32};
use crate::error::DatError;
use crate::range_reader::RangeReader;

verus! {

/// Absolute file offset of the archive header.
pub const DAT_HEADER_OFFSET: u32 = 0x140;

/// On-disk size of the archive header: sixteen 32-bit fields and the
/// 16-byte opaque major version.
pub const DAT_HEADER_SIZE: usize = 80;

/// The archive header: the fixed-size record at absolute offset 0x140
/// holding the archive's global parameters, among them the physical block
/// size and the absolute offset of the directory B-tree root.
pub struct DatDatabaseHeader {
    pub file_type: u32,
    pub block_size: u32,
    pub file_size: u32,
    pub data_set: u32,
    pub data_subset: u32,
    pub free_head: u32,
    pub free_tail: u32,
    pub free_count: u32,
    pub btree: u32,
    pub new_lru: u32,
    pub old_lru: u32,
    pub use_lru: bool,
    pub master_map_id: u32,
    pub engine_pack_version: u32,
    pub game_pack_version: u32,
    pub version_major: Vec<u8>,
    pub version_minor: u32,
}

impl DatDatabaseHeader {
    /// Field-by-field correspondence with the 80 header bytes, all
    /// integers little-endian; `use_lru` is stored as a 32-bit word that
    /// is true exactly when it equals 1.
    pub open spec fn matches(self, h: Seq<u8>) -> bool {
        &&& self.file_type == le_u32_at(h, 0)
        &&& self.block_size == le_u32_at(h, 4)
        &&& self.file_size == le_u32_at(h, 8)
        &&& self.data_set == le_u32_at(h, 12)
        &&& self.data_subset == le_u32_at(h, 16)
        &&& self.free_head == le_u32_at(h, 20)
        &&& self.free_tail == le_u32_at(h, 24)
        &&& self.free_count == le_u32_at(h, 28)
        &&& self.btree == le_u32_at(h, 32)
        &&& self.new_lru == le_u32_at(h, 36)
        &&& self.old_lru == le_u32_at(h, 40)
        &&& self.use_lru == (le_u32_at(h, 44) == 1)
        &&& self.master_map_id == le_u32_at(h, 48)
        &&& self.engine_pack_version == le_u32_at(h, 52)
        &&& self.game_pack_version == le_u32_at(h, 56)
        &&& self.version_major@ == h.subrange(60, 76)
        &&& self.version_minor == le_u32_at(h, 76)
    }

    /// Reads the archive header: the 80 bytes at absolute offset 0x140,
    /// parsed per `matches`. Fails with `InvalidHeader` exactly when the
    /// backing reader cannot produce those bytes; on a reliable backend
    /// that is exactly when the archive is shorter than `0x140 + 80`
    /// bytes.
    pub fn read<R: RangeReader>(reader: &mut R) -> (r: Result<DatDatabaseHeader, DatError>)
        ensures
            final(reader).data() == old(reader).data(),
            final(reader).reliable() == old(reader).reliable(),
            r matches Ok(h) ==> {
                &&& 0x140 + 80 <= old(reader).data().len()
                &&& h.matches(old(reader).data().subrange(0x140int, 0x140int + 80))
            },
            old(reader).reliable() ==> (r is Ok <==> 0x140 + 80 <= old(reader).data().len()),
            r is Err ==> r == Err::<DatDatabaseHeader, DatError>(DatError::InvalidHeader),
    {
        let h = match reader.read_range(DAT_HEADER_OFFSET, DAT_HEADER_SIZE) {
            Ok(b) => b,
            Err(_) => {
                return Err(DatError::InvalidHeader);
            },
        };
        let header = DatDatabaseHeader {
            file_type: read_le_u32(&h, 0),
            block_size: read_le_u32(&h, 4),
            file_size: read_le_u32(&h, 8),
            data_set: read_le_u32(&h, 12),
            data_subset: read_le_u32(&h, 16),
            free_head: read_le_u32(&h, 20),
            free_tail: read_le_u32(&h, 24),
            free_count: read_le_u32(&h, 28),
            btree: read_le_u32(&h, 32),
            new_lru: read_le_u32(&h, 36),
            old_lru: read_le_u32(&h, 40),
            use_lru: read_le_u32(&h, 44) == 1,
            master_map_id: read_le_u32(&h, 48),
            engine_pack_version: read_le_u32(&h, 52),
            game_pack_version: read_le_u32(&h, 56),
            version_major: copy_range(&h, 60, 76),
            version_minor: read_le_u32(&h, 76),
        };
        proof {
            let whole = old(reader).data().subrange(0x140int, 0x140int + 80);
            assert(h@ =~= whole);
            assert forall|i: int| 0 <= i && i + 4 <= 80 implies le_u32_at(h@, i) == le_u32_at(
                whole,
                i,
            ) by {}
            assert(header.version_major@ =~= whole.subrange(60, 76));
        }
        Ok(header)
    }
}

} // verus!
