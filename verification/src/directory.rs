use vstd::prelude::*;

use crate::block_reader::{chain_payload, chain_wf, DatBlockReader};
use crate::bytes::{le_u32_at, read_le_u32};
use crate::dat_file_type::DatFileType;
use crate::error::DatError;
use crate::range_reader::RangeReader;

verus! {

/// Bound on the directory traversal depth; exceeding it means the child
/// pointers form a cycle.
pub const DAT_DIRECTORY_MAX_DEPTH: u32 = 64;

/// Logical size of a directory node: 62 child pointers, the entry count,
/// and room for 61 entries of 24 bytes each.
pub const DAT_DIRECTORY_HEADER_OBJECT_SIZE: u32 = 0x6B4;

/// Byte offset of the entry count inside a directory node: past the 62
/// four-byte child pointers.
pub const DAT_DIRECTORY_ENTRY_COUNT_OFFSET: usize = 248;

/// Byte offset of the first entry record inside a directory node.
pub const DAT_DIRECTORY_ENTRIES_OFFSET: usize = 252;

/// A directory entry: a 24-byte record identifying one stored sub-file.
/// `object_id` is unique within the archive, `file_offset` points at the
/// first physical block of the entry's chain, and `file_size` is the
/// logical byte length after reassembly.
#[derive(Clone, Copy, Debug, PartialEq, Eq, Structural)]
pub struct DatFile {
    pub bit_flags: u32,
    pub object_id: u32,
    pub file_offset: u32,
    pub file_size: u32,
    pub date: u32,
    pub iteration: u32,
}

impl DatFile {
    /// The class an entry's object identifier places it in: the texture
    /// range is `0x06000000 ..= 0x07FFFFFF`; everything else is opaque.
    pub open spec fn spec_file_type(self) -> DatFileType {
        if 0x06000000 <= self.object_id <= 0x07FFFFFF {
            DatFileType::Texture
        } else {
            DatFileType::Unknown
        }
    }

    /// Classifies the entry by its object identifier: `Texture` exactly
    /// when `0x06000000 <= object_id <= 0x07FFFFFF`, else `Unknown`.
    pub fn file_type(&self) -> (t: DatFileType)
        ensures
            t == self.spec_file_type(),
            t == DatFileType::Texture <==> 0x06000000 <= self.object_id <= 0x07FFFFFF,
    {
        if 0x06000000 <= self.object_id && self.object_id <= 0x07FFFFFF {
            DatFileType::Texture
        } else {
            DatFileType::Unknown
        }
    }
}

/// The `i`-th child pointer stored in the node bytes `node`.
pub open spec fn spec_branch(node: Seq<u8>, i: int) -> int {
    le_u32_at(node, 4 * i)
}

/// The entry count stored in the node bytes `node`.
pub open spec fn spec_entry_count(node: Seq<u8>) -> int {
    le_u32_at(node, 248)
}

/// The `i`-th entry record stored in the node bytes `node`.
pub open spec fn spec_entry(node: Seq<u8>, i: int) -> DatFile {
    DatFile {
        bit_flags: le_u32_at(node, 252 + 24 * i) as u32,
        object_id: le_u32_at(node, 252 + 24 * i + 4) as u32,
        file_offset: le_u32_at(node, 252 + 24 * i + 8) as u32,
        file_size: le_u32_at(node, 252 + 24 * i + 12) as u32,
        date: le_u32_at(node, 252 + 24 * i + 16) as u32,
        iteration: le_u32_at(node, 252 + 24 * i + 20) as u32,
    }
}

/// The entries stored in the node bytes `node`, in order.
pub open spec fn spec_entries(node: Seq<u8>) -> Seq<DatFile> {
    Seq::new(spec_entry_count(node) as nat, |i: int| spec_entry(node, i))
}

/// A parsed directory node: 62 child pointers (0 means absent), then the
/// entry count, then that many entries. A node is a leaf exactly when its
/// first child pointer is 0.
pub struct DatDirectoryHeader {
    pub branches: Vec<u32>,
    pub entry_count: u32,
    pub entries: Vec<DatFile>,
}

impl DatDirectoryHeader {
    /// Shape of a parsed node: all 62 pointers, and exactly `entry_count`
    /// entries, at most 61.
    pub open spec fn wf(self) -> bool {
        &&& self.branches@.len() == 62
        &&& self.entry_count <= 61
        &&& self.entries@.len() == self.entry_count
    }

    /// Field-by-field correspondence with the node bytes `node`.
    pub open spec fn matches(self, node: Seq<u8>) -> bool {
        &&& self.branches@.len() == 62
        &&& forall|i: int| 0 <= i < 62 ==> #[trigger] self.branches@[i] == spec_branch(node, i)
        &&& self.entry_count == spec_entry_count(node)
        &&& self.entries@ == spec_entries(node)
    }

    /// True when the node is a leaf: its first child pointer is 0.
    pub open spec fn is_leaf(self) -> bool {
        self.branches@[0] == 0
    }

    /// Parses a directory node out of the exactly `0x6B4` bytes that the
    /// block-chain reader materialised for it. Fails with `InvalidHeader`
    /// exactly when the buffer has the wrong length or the stored entry
    /// count exceeds 61.
    pub fn read(bytes: &Vec<u8>) -> (r: Result<DatDirectoryHeader, DatError>)
        ensures
            r is Ok <==> bytes@.len() == 0x6B4 && spec_entry_count(bytes@) <= 61,
            r matches Ok(h) ==> h.wf() && h.matches(bytes@),
            r is Err ==> r == Err::<DatDirectoryHeader, DatError>(DatError::InvalidHeader),
    {
        if bytes.len() != DAT_DIRECTORY_HEADER_OBJECT_SIZE as usize {
            return Err(DatError::InvalidHeader);
        }
        let mut branches: Vec<u32> = Vec::new();
        let mut i: usize = 0;
        while i < 62
            invariant
                i <= 62,
                bytes@.len() == 0x6B4,
                branches@.len() == i,
                forall|j: int| 0 <= j < i ==> #[trigger] branches@[j] == spec_branch(bytes@, j),
            decreases 62 - i,
        {
            branches.push(read_le_u32(bytes, 4 * i));
            i = i + 1;
        }
        let entry_count = read_le_u32(bytes, DAT_DIRECTORY_ENTRY_COUNT_OFFSET);
        if entry_count > 61 {
            return Err(DatError::InvalidHeader);
        }
        let mut entries: Vec<DatFile> = Vec::new();
        let mut k: usize = 0;
        while k < entry_count as usize
            invariant
                k <= entry_count <= 61,
                bytes@.len() == 0x6B4,
                entries@.len() == k,
                forall|j: int| 0 <= j < k ==> #[trigger] entries@[j] == spec_entry(bytes@, j),
            decreases entry_count as usize - k,
        {
            let base = DAT_DIRECTORY_ENTRIES_OFFSET + 24 * k;
            entries.push(
                DatFile {
                    bit_flags: read_le_u32(bytes, base),
                    object_id: read_le_u32(bytes, base + 4),
                    file_offset: read_le_u32(bytes, base + 8),
                    file_size: read_le_u32(bytes, base + 12),
                    date: read_le_u32(bytes, base + 16),
                    iteration: read_le_u32(bytes, base + 20),
                },
            );
            k = k + 1;
        }
        let header = DatDirectoryHeader { branches, entry_count, entries };
        proof {
            assert(header.entries@ =~= spec_entries(bytes@));
        }
        Ok(header)
    }
}

/// The 0x6B4 node bytes that the block chain starting at `offset` carries.
pub open spec fn node_payload(data: Seq<u8>, offset: int, block_size: int) -> Seq<u8> {
    chain_payload(data, offset, 0x6B4, block_size)
}

/// Whether the node at `offset` can be materialised and parsed: its block
/// chain is well formed and its stored entry count is at most 61.
pub open spec fn node_readable(data: Seq<u8>, offset: int, block_size: int) -> bool {
    &&& chain_wf(data, offset, 0x6B4, block_size)
    &&& spec_entry_count(node_payload(data, offset, block_size)) <= 61
}

/// Whether the whole subtree rooted at `offset` can be traversed within
/// `depth` levels: every node on it is readable, and an internal node's
/// first `entry_count + 1` child pointers are all non-zero and root
/// traversable subtrees themselves.
pub open spec fn spec_dir_ok(data: Seq<u8>, offset: int, block_size: int, depth: int) -> bool
    decreases depth, 1int, 0int,
{
    if depth <= 0 {
        false
    } else if !node_readable(data, offset, block_size) {
        false
    } else {
        let node = node_payload(data, offset, block_size);
        spec_branch(node, 0) == 0 || spec_children_ok(data, node, block_size, depth, 0)
    }
}

/// Whether children `i ..= entry_count` of the internal node with bytes
/// `node` are present and root traversable subtrees of depth `depth - 1`.
pub open spec fn spec_children_ok(
    data: Seq<u8>,
    node: Seq<u8>,
    block_size: int,
    depth: int,
    i: int,
) -> bool
    decreases depth, 0int, spec_entry_count(node) + 1 - i,
{
    if i > spec_entry_count(node) {
        true
    } else if depth <= 0 {
        false
    } else {
        &&& spec_branch(node, i) != 0
        &&& spec_dir_ok(data, spec_branch(node, i), block_size, depth - 1)
        &&& spec_children_ok(data, node, block_size, depth, i + 1)
    }
}

/// The in-order listing of the subtree rooted at `offset`: a leaf yields
/// its entries; an internal node with entry count k yields child 0, entry
/// 0, child 1, entry 1, ..., entry k-1, child k.
pub open spec fn spec_dir_entries(data: Seq<u8>, offset: int, block_size: int, depth: int) -> Seq<
    DatFile,
>
    decreases depth, 1int, 0int,
{
    if depth <= 0 {
        Seq::empty()
    } else {
        let node = node_payload(data, offset, block_size);
        if spec_branch(node, 0) == 0 {
            spec_entries(node)
        } else {
            spec_children_entries(data, node, block_size, depth, 0)
        }
    }
}

/// The in-order listing of children `i ..= entry_count` of the internal
/// node with bytes `node`, each child followed by the entry of the same
/// index (the last child by nothing).
pub open spec fn spec_children_entries(
    data: Seq<u8>,
    node: Seq<u8>,
    block_size: int,
    depth: int,
    i: int,
) -> Seq<DatFile>
    decreases depth, 0int, spec_entry_count(node) + 1 - i,
{
    if i > spec_entry_count(node) || depth <= 0 {
        Seq::empty()
    } else {
        spec_dir_entries(data, spec_branch(node, i), block_size, depth - 1) + (if i
            < spec_entry_count(node) {
            seq![spec_entry(node, i)]
        } else {
            Seq::empty()
        }) + spec_children_entries(data, node, block_size, depth, i + 1)
    }
}

/// A materialised directory subtree: the parsed node and, for an internal
/// node, its `entry_count + 1` children in pointer order.
pub struct DatDirectory {
    pub header: DatDirectoryHeader,
    pub directories: Vec<DatDirectory>,
}

/// Shape of a materialised subtree: the node is well formed, an internal
/// node carries exactly `entry_count + 1` children and a leaf none, and
/// every child is well formed in turn.
pub open spec fn dir_wf(d: DatDirectory) -> bool
    decreases d,
{
    &&& d.header.wf()
    &&& (d.directories@.len() == 0 || d.directories@.len() == d.header.entry_count + 1)
    &&& forall|i: int| 0 <= i < d.directories@.len() ==> dir_wf(#[trigger] d.directories@[i])
}

/// The in-order listing of a materialised subtree. When `recursive` is
/// false, or at a leaf, only the node's own entries are listed; otherwise
/// children interleave with entries: child 0, entry 0, child 1, ...,
/// entry k-1, child k.
pub open spec fn flat_entries(d: DatDirectory, recursive: bool) -> Seq<DatFile>
    decreases d, 1int, 0int,
{
    if recursive && d.directories@.len() > 0 {
        flat_interleaved(d, 0)
    } else {
        d.header.entries@
    }
}

/// The in-order listing of a materialised subtree from child `i` on.
pub open spec fn flat_interleaved(d: DatDirectory, i: int) -> Seq<DatFile>
    decreases d, 0int, d.directories@.len() - i,
{
    if i < 0 || i >= d.directories@.len() {
        Seq::empty()
    } else {
        flat_entries(d.directories@[i], true) + (if i < d.header.entries@.len() {
            seq![d.header.entries@[i]]
        } else {
            Seq::empty()
        }) + flat_interleaved(d, i + 1)
    }
}

/// The number of entries stored in a subtree: its node's entry count plus
/// those of all its children.
pub open spec fn entry_sum(d: DatDirectory) -> int
    decreases d, 1int, 0int,
{
    d.header.entry_count + entry_sum_children(d, 0)
}

/// The number of entries stored in children `i` onward.
pub open spec fn entry_sum_children(d: DatDirectory, i: int) -> int
    decreases d, 0int, d.directories@.len() - i,
{
    if i < 0 || i >= d.directories@.len() {
        0
    } else {
        entry_sum(d.directories@[i]) + entry_sum_children(d, i + 1)
    }
}

/// Enumeration totality: the recursive enumeration of a subtree yields
/// exactly as many entries as the sum of entry_count over every node of
/// the subtree.
pub proof fn lemma_enumeration_totality(d: DatDirectory)
    requires
        dir_wf(d),
    ensures
        flat_entries(d, true).len() == entry_sum(d),
    decreases d, 1int, 0int,
{
    if d.directories@.len() == 0 {
        assert(entry_sum_children(d, 0) == 0);
    } else {
        lemma_totality_children(d, 0);
    }
}

proof fn lemma_totality_children(d: DatDirectory, i: int)
    requires
        dir_wf(d),
        d.directories@.len() == d.header.entry_count + 1,
        0 <= i <= d.directories@.len(),
    ensures
        flat_interleaved(d, i).len() == entry_sum_children(d, i) + (if i <= d.header.entry_count {
            d.header.entry_count - i
        } else {
            0int
        }),
    decreases d, 0int, d.directories@.len() - i,
{
    if i < d.directories@.len() {
        lemma_enumeration_totality(d.directories@[i]);
        lemma_totality_children(d, i + 1);
    }
}

/// Enumeration determinism: two enumerations of the same archive bytes
/// are the same sequence, because each is pinned to the in-order listing
/// that the bytes alone determine.
pub proof fn lemma_enumeration_deterministic(
    l1: Seq<DatFile>,
    l2: Seq<DatFile>,
    data: Seq<u8>,
    offset: int,
    block_size: int,
    depth: int,
)
    requires
        l1 == spec_dir_entries(data, offset, block_size, depth),
        l2 == spec_dir_entries(data, offset, block_size, depth),
    ensures
        l1 == l2,
{
}

proof fn lemma_flat_matches_children(
    d: DatDirectory,
    data: Seq<u8>,
    node: Seq<u8>,
    block_size: int,
    depth: int,
    i: int,
)
    requires
        d.header.wf(),
        d.header.matches(node),
        d.directories@.len() == d.header.entry_count + 1,
        depth > 0,
        0 <= i <= d.directories@.len(),
        forall|j: int|
            0 <= j < d.directories@.len() ==> flat_entries(#[trigger] d.directories@[j], true)
                == spec_dir_entries(data, spec_branch(node, j), block_size, depth - 1),
    ensures
        flat_interleaved(d, i) == spec_children_entries(data, node, block_size, depth, i),
    decreases d.directories@.len() - i,
{
    if i < d.directories@.len() {
        lemma_flat_matches_children(d, data, node, block_size, depth, i + 1);
        assert(d.header.entries@ == spec_entries(node));
        if i < d.header.entries@.len() {
            assert(d.header.entries@[i] == spec_entry(node, i));
        }
    }
}

impl DatDirectory {
    /// Materialises the directory subtree rooted at `offset`: reads the
    /// node's 0x6B4 bytes through the block-chain reader, parses it, and
    /// descends into all `entry_count + 1` children of an internal node.
    /// Traversal deeper than 64 levels fails with `CyclicDirectory`; an
    /// internal node with a zero child pointer among the first
    /// `entry_count + 1` fails with `InvalidHeader`. On a reliable backend
    /// the read succeeds exactly on traversable subtrees.
    pub fn read<R: RangeReader>(reader: &mut R, offset: u32, block_size: u32) -> (r: Result<
        DatDirectory,
        DatError,
    >)
        ensures
            final(reader).data() == old(reader).data(),
            final(reader).reliable() == old(reader).reliable(),
            r matches Ok(d) ==> {
                &&& dir_wf(d)
                &&& spec_dir_ok(old(reader).data(), offset as int, block_size as int, 64)
                &&& flat_entries(d, true) == spec_dir_entries(
                    old(reader).data(),
                    offset as int,
                    block_size as int,
                    64,
                )
                &&& d.header.matches(
                    node_payload(old(reader).data(), offset as int, block_size as int),
                )
                &&& (d.header.is_leaf() ==> d.directories@.len() == 0)
                &&& (!d.header.is_leaf() ==> d.directories@.len() == d.header.entry_count + 1)
            },
            old(reader).reliable() && spec_dir_ok(
                old(reader).data(),
                offset as int,
                block_size as int,
                64,
            ) ==> r is Ok,
    {
        Self::read_bounded(reader, offset, block_size, DAT_DIRECTORY_MAX_DEPTH)
    }

    fn read_bounded<R: RangeReader>(reader: &mut R, offset: u32, block_size: u32, depth: u32) -> (r:
        Result<DatDirectory, DatError>)
        ensures
            final(reader).data() == old(reader).data(),
            final(reader).reliable() == old(reader).reliable(),
            r matches Ok(d) ==> {
                &&& dir_wf(d)
                &&& spec_dir_ok(old(reader).data(), offset as int, block_size as int, depth as int)
                &&& flat_entries(d, true) == spec_dir_entries(
                    old(reader).data(),
                    offset as int,
                    block_size as int,
                    depth as int,
                )
                &&& d.header.matches(
                    node_payload(old(reader).data(), offset as int, block_size as int),
                )
                &&& (d.header.is_leaf() ==> d.directories@.len() == 0)
                &&& (!d.header.is_leaf() ==> d.directories@.len() == d.header.entry_count + 1)
            },
            old(reader).reliable() && spec_dir_ok(
                old(reader).data(),
                offset as int,
                block_size as int,
                depth as int,
            ) ==> r is Ok,
        decreases depth,
    {
        let ghost gdata = reader.data();
        let ghost grel = reader.reliable();
        if depth == 0 {
            return Err(DatError::CyclicDirectory);
        }
        let buf = match DatBlockReader::read(
            reader,
            offset,
            DAT_DIRECTORY_HEADER_OBJECT_SIZE,
            block_size,
        ) {
            Ok(b) => b,
            Err(e) => {
                proof {
                    if grel {
                        assert(!chain_wf(gdata, offset as int, 0x6B4, block_size as int));
                    }
                }
                return Err(e);
            },
        };
        let ghost node = node_payload(gdata, offset as int, block_size as int);
        let header = match DatDirectoryHeader::read(&buf) {
            Ok(h) => h,
            Err(e) => {
                proof {
                    assert(!node_readable(gdata, offset as int, block_size as int));
                }
                return Err(e);
            },
        };
        let mut directories: Vec<DatDirectory> = Vec::new();
        if header.branches[0] != 0 {
            let count = header.entry_count as usize;
            let mut i: usize = 0;
            while i < count + 1
                invariant
                    gdata == old(reader).data(),
                    grel == old(reader).reliable(),
                    reader.data() == gdata,
                    reader.reliable() == grel,
                    node == node_payload(gdata, offset as int, block_size as int),
                    0 < depth,
                    node_readable(gdata, offset as int, block_size as int),
                    header.wf(),
                    header.matches(node),
                    count == header.entry_count,
                    spec_branch(node, 0) != 0,
                    i <= count + 1,
                    directories@.len() == i,
                    forall|j: int| 0 <= j < i ==> dir_wf(#[trigger] directories@[j]),
                    forall|j: int|
                        0 <= j < i ==> flat_entries(#[trigger] directories@[j], true)
                            == spec_dir_entries(
                            gdata,
                            spec_branch(node, j),
                            block_size as int,
                            depth as int - 1,
                        ),
                    spec_children_ok(gdata, node, block_size as int, depth as int, 0)
                        <==> spec_children_ok(gdata, node, block_size as int, depth as int, i as int),
                decreases count + 1 - i,
            {
                let branch = header.branches[i];
                if branch == 0 {
                    proof {
                        assert(!spec_children_ok(
                            gdata,
                            node,
                            block_size as int,
                            depth as int,
                            i as int,
                        ));
                        assert(!spec_dir_ok(gdata, offset as int, block_size as int, depth as int));
                    }
                    return Err(DatError::InvalidHeader);
                }
                let child = match Self::read_bounded(reader, branch, block_size, depth - 1) {
                    Ok(c) => c,
                    Err(e) => {
                        proof {
                            if grel {
                                assert(!spec_children_ok(
                                    gdata,
                                    node,
                                    block_size as int,
                                    depth as int,
                                    i as int,
                                ));
                                assert(!spec_dir_ok(
                                    gdata,
                                    offset as int,
                                    block_size as int,
                                    depth as int,
                                ));
                            }
                        }
                        return Err(e);
                    },
                };
                directories.push(child);
                i = i + 1;
            }
        }
        let dir = DatDirectory { header, directories };
        proof {
            if dir.directories@.len() == 0 {
                assert(spec_branch(node, 0) == 0);
                assert(flat_entries(dir, true) == dir.header.entries@);
                assert(spec_dir_entries(gdata, offset as int, block_size as int, depth as int)
                    == spec_entries(node));
            } else {
                assert(spec_children_ok(gdata, node, block_size as int, depth as int, (
                dir.header.entry_count + 1) as int));
                lemma_flat_matches_children(
                    dir,
                    gdata,
                    node,
                    block_size as int,
                    depth as int,
                    0,
                );
                assert(flat_entries(dir, true) == flat_interleaved(dir, 0));
            }
        }
        Ok(dir)
    }

    /// Appends the subtree's in-order entry listing to `files_list`. When
    /// `recursive` is false only this node's own entries are appended.
    pub fn list_files(&self, files_list: &mut Vec<DatFile>, recursive: bool) -> (r: Result<
        (),
        DatError,
    >)
        ensures
            r is Ok,
            final(files_list)@ == old(files_list)@ + flat_entries(*self, recursive),
        decreases *self,
    {
        if recursive && self.directories.len() > 0 {
            let mut i: usize = 0;
            while i < self.directories.len()
                invariant
                    i <= self.directories@.len(),
                    files_list@ + flat_interleaved(*self, i as int) == old(files_list)@
                        + flat_interleaved(*self, 0),
                decreases self.directories@.len() - i,
            {
                let ghost before = files_list@;
                match self.directories[i].list_files(files_list, true) {
                    Ok(()) => (),
                    Err(e) => {
                        proof {
                            assert(false);
                        }
                        return Err(e);
                    },
                };
                if i < self.header.entries.len() {
                    files_list.push(self.header.entries[i]);
                }
                proof {
                    assert(files_list@ + flat_interleaved(*self, i as int + 1) =~= before
                        + flat_interleaved(*self, i as int));
                }
                i = i + 1;
            }
            proof {
                assert(flat_interleaved(*self, self.directories@.len() as int)
                    =~= Seq::<DatFile>::empty());
                assert(files_list@ =~= old(files_list)@ + flat_entries(*self, recursive));
            }
        } else {
            let mut i: usize = 0;
            while i < self.header.entries.len()
                invariant
                    i <= self.header.entries@.len(),
                    files_list@ == old(files_list)@ + self.header.entries@.subrange(0, i as int),
                decreases self.header.entries@.len() - i,
            {
                files_list.push(self.header.entries[i]);
                i = i + 1;
                proof {
                    assert(files_list@ =~= old(files_list)@ + self.header.entries@.subrange(
                        0,
                        i as int,
                    ));
                }
            }
            proof {
                assert(self.header.entries@.subrange(0, self.header.entries@.len() as int)
                    =~= self.header.entries@);
                assert(files_list@ =~= old(files_list)@ + flat_entries(*self, recursive));
            }
        }
        Ok(())
    }
}

} // verus!
