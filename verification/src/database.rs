use vstd::prelude::*;

use crate::directory::{flat_entries, spec_dir_entries, spec_dir_ok, DatDirectory, DatFile};
use crate::error::DatError;
use crate::header::DatDatabaseHeader;
use crate::range_reader::RangeReader;

verus! {

/// Whether archive bytes hold a readable header and, at the block size
/// and B-tree root the header names, a traversable directory tree.
pub open spec fn spec_archive_ok(data: Seq<u8>) -> bool {
    &&& 0x140 + 80 <= data.len()
    &&& spec_dir_ok(
        data,
        crate::bytes::le_u32_at(data.subrange(0x140int, 0x140int + 80), 32),
        crate::bytes::le_u32_at(data.subrange(0x140int, 0x140int + 80), 4),
        64,
    )
}

/// An opened archive: its header and its materialised directory tree.
pub struct DatDatabase {
    pub header: DatDatabaseHeader,
    pub root_dir: DatDirectory,
}

impl DatDatabase {
    /// Opens an archive: reads the header at offset 0x140, then
    /// materialises the directory tree rooted at the header's
    /// `btree` offset using the header's block size.
    pub fn read<R: RangeReader>(reader: &mut R) -> (r: Result<DatDatabase, DatError>)
        ensures
            final(reader).data() == old(reader).data(),
            final(reader).reliable() == old(reader).reliable(),
            r matches Ok(db) ==> {
                &&& 0x140 + 80 <= old(reader).data().len()
                &&& db.header.matches(old(reader).data().subrange(0x140int, 0x140int + 80))
                &&& crate::directory::dir_wf(db.root_dir)
                &&& flat_entries(db.root_dir, true) == spec_dir_entries(
                    old(reader).data(),
                    db.header.btree as int,
                    db.header.block_size as int,
                    64,
                )
                &&& spec_dir_ok(
                    old(reader).data(),
                    db.header.btree as int,
                    db.header.block_size as int,
                    64,
                )
            },
            old(reader).reliable() && spec_archive_ok(old(reader).data()) ==> (r is Ok),
    {
        let header = match DatDatabaseHeader::read(reader) {
            Ok(h) => h,
            Err(e) => {
                return Err(e);
            },
        };
        let root_dir = match DatDirectory::read(reader, header.btree, header.block_size) {
            Ok(d) => d,
            Err(e) => {
                return Err(e);
            },
        };
        Ok(DatDatabase { header, root_dir })
    }

    /// Lists the archive's entries: the in-order listing of the directory
    /// tree when `recursive` is true, the root node's own entries when it
    /// is false.
    pub fn list_files(&self, recursive: bool) -> (r: Result<Vec<DatFile>, DatError>)
        ensures
            r matches Ok(v) && v@ == flat_entries(self.root_dir, recursive),
    {
        let mut files_list: Vec<DatFile> = Vec::new();
        match self.root_dir.list_files(&mut files_list, recursive) {
            Ok(()) => (),
            Err(e) => {
                proof {
                    assert(false);
                }
                return Err(e);
            },
        };
        Ok(files_list)
    }
}

} // verus!
