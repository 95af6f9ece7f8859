//! Reader for a legacy game archive format that stores many independent
//! sub-files in a chained-block layout.
//!
//! The archive is addressed through a [`range_reader::RangeReader`], a
//! capability that reads exactly `length` bytes at an absolute offset.
//! On top of it sit the block-chain reader, which reassembles an entry's
//! logically contiguous bytes from a linked list of fixed-size physical
//! blocks, the header parser, and the directory B-tree walker that
//! enumerates every stored entry. Entries whose identifier marks them as
//! textures decode to a canonical RGBA pixel buffer.

pub mod block_reader;
pub mod bytes;
pub mod dat_file;
pub mod dat_file_type;
pub mod database;
pub mod directory;
pub mod error;
pub mod header;
pub mod icon;
pub mod lookup;
pub mod range_reader;
pub mod texture;
