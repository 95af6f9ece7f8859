use vstd::prelude::*;

use crate::bytes::{copy_range, le_i32_at, read_le_i32};
use crate::error::DatError;

verus! {

/// A type whose values are parsed out of an entry's reassembled bytes,
/// starting right after the framing identifier.
pub trait DatFileRead: Sized + View {
    /// What a buffer parses to: the parsed value's mathematical image, or
    /// the error kind the parser raises on that buffer.
    spec fn spec_read(bytes: Seq<u8>) -> Result<Self::V, DatError>;

    /// Parses a value out of `bytes`, exactly as `spec_read` says.
    fn read(bytes: &Vec<u8>) -> (r: Result<Self, DatError>)
        ensures
            match r {
                Ok(v) => Self::spec_read(bytes@) == Ok::<Self::V, DatError>(v@),
                Err(e) => Self::spec_read(bytes@) == Err::<Self::V, DatError>(e),
            },
    ;
}

/// The decoded payload of a framed entry, by variant.
#[derive(Debug)]
pub enum DatFileType {
    Texture(crate::texture::Texture),
}

/// A decoded entry: the 32-bit framing identifier that opens every
/// entry's reassembled buffer, and the type-specific payload after it.
#[derive(Debug)]
pub struct DatFile {
    pub id: i32,
    pub inner: DatFileType,
}

impl DatFile {
    /// Decodes a framed entry buffer: reads the 32-bit little-endian
    /// framing identifier, then parses the payload as the variant the
    /// caller selected (the caller classifies entries by object
    /// identifier range and the decoder does not re-classify). Variants
    /// the decoder does not support fail with `UnsupportedEntryType`; a
    /// buffer too short for the framing identifier is malformed.
    pub fn read(bytes: &Vec<u8>, variant: crate::dat_file_type::DatFileType) -> (r: Result<
        DatFile,
        DatError,
    >)
        ensures
            variant == crate::dat_file_type::DatFileType::Unknown ==> r == Err::<
                DatFile,
                DatError,
            >(DatError::UnsupportedEntryType),
            variant == crate::dat_file_type::DatFileType::Texture && bytes@.len() < 4 ==> r
                == Err::<DatFile, DatError>(DatError::InvalidHeader),
            variant == crate::dat_file_type::DatFileType::Texture && bytes@.len() >= 4 ==> match r {
                Ok(df) => {
                    &&& df.id == le_i32_at(bytes@, 0)
                    &&& df.inner matches DatFileType::Texture(t) && crate::texture::spec_texture_read(
                        bytes@.skip(4),
                    ) == Ok::<crate::texture::TextureView, DatError>(t@)
                },
                Err(e) => crate::texture::spec_texture_read(bytes@.skip(4)) == Err::<
                    crate::texture::TextureView,
                    DatError,
                >(e),
            },
    {
        match variant {
            crate::dat_file_type::DatFileType::Unknown => Err(DatError::UnsupportedEntryType),
            crate::dat_file_type::DatFileType::Texture => {
                let blen = bytes.len();
                if blen < 4 {
                    return Err(DatError::InvalidHeader);
                }
                let id = read_le_i32(bytes, 0);
                let rest = copy_range(bytes, 4, blen);
                proof {
                    assert(rest@ =~= bytes@.skip(4));
                }
                match <crate::texture::Texture as DatFileRead>::read(&rest) {
                    Ok(t) => Ok(DatFile { id, inner: DatFileType::Texture(t) }),
                    Err(e) => Err(e),
                }
            },
        }
    }
}

} // verus!
