use vstd::prelude::*;

use crate::bytes::{copy_range, le_i32_at, le_u32_at, read_le_i32, read_le_u32};
use crate::dat_file::DatFileRead;
use crate::error::DatError;

verus! {

/// On-disk code of the 24-bit blue-green-red pixel format.
pub const PFID_R8G8B8_CODE: u32 = 20;

/// On-disk code of the 32-bit blue-green-red-alpha pixel format.
pub const PFID_A8R8G8B8_CODE: u32 = 21;

/// A texture's pixel format. Only the two formats the decoder converts
/// are distinguished; any other on-disk code is carried opaquely.
#[allow(non_camel_case_types)]
#[derive(Clone, Copy, Debug, PartialEq, Eq, Structural)]
pub enum SurfacePixelFormat {
    PFID_R8G8B8,
    PFID_A8R8G8B8,
    Other(u32),
}

/// The pixel format a 32-bit on-disk code denotes.
pub open spec fn spec_format_of(code: int) -> SurfacePixelFormat {
    if code == 20 {
        SurfacePixelFormat::PFID_R8G8B8
    } else if code == 21 {
        SurfacePixelFormat::PFID_A8R8G8B8
    } else {
        SurfacePixelFormat::Other(code as u32)
    }
}

/// Maps a 32-bit on-disk pixel format code to the format it denotes.
pub fn format_of(code: u32) -> (f: SurfacePixelFormat)
    ensures
        f == spec_format_of(code as int),
{
    if code == PFID_R8G8B8_CODE {
        SurfacePixelFormat::PFID_R8G8B8
    } else if code == PFID_A8R8G8B8_CODE {
        SurfacePixelFormat::PFID_A8R8G8B8
    } else {
        SurfacePixelFormat::Other(code)
    }
}

/// The mathematical image of a [`Texture`]: its fields as unbounded
/// integers and its pixel bytes as a sequence.
pub ghost struct TextureView {
    pub unknown: int,
    pub width: int,
    pub height: int,
    pub format: SurfacePixelFormat,
    pub length: int,
    pub data: Seq<u8>,
    pub default_palette_id: Option<u32>,
}

/// A texture record: the type-specific payload that follows an entry's
/// framing identifier. All integers little-endian; `data` holds `length`
/// raw pixel bytes; the palette identifier trails the pixel data only for
/// palettised formats.
#[derive(Debug, PartialEq)]
pub struct Texture {
    pub unknown: i32,
    pub width: i32,
    pub height: i32,
    pub format: SurfacePixelFormat,
    pub length: i32,
    pub data: Vec<u8>,
    pub default_palette_id: Option<u32>,
}

impl View for Texture {
    type V = TextureView;

    open spec fn view(&self) -> TextureView {
        TextureView {
            unknown: self.unknown as int,
            width: self.width as int,
            height: self.height as int,
            format: self.format,
            length: self.length as int,
            data: self.data@,
            default_palette_id: self.default_palette_id,
        }
    }
}

/// What a texture record's bytes parse to: the five fixed little-endian
/// fields, `length` pixel bytes, and a trailing palette identifier when
/// four more bytes follow. A buffer too short for its own `length` field
/// is malformed.
pub open spec fn spec_texture_read(bytes: Seq<u8>) -> Result<TextureView, DatError> {
    if bytes.len() < 20 {
        Err(DatError::InvalidHeader)
    } else {
        let length = le_i32_at(bytes, 16);
        if length < 0 || 20 + length > bytes.len() {
            Err(DatError::InvalidHeader)
        } else {
            Ok(
                TextureView {
                    unknown: le_i32_at(bytes, 0),
                    width: le_i32_at(bytes, 4),
                    height: le_i32_at(bytes, 8),
                    format: spec_format_of(le_u32_at(bytes, 12)),
                    length: length,
                    data: bytes.subrange(20, 20 + length),
                    default_palette_id: if 20 + length + 4 <= bytes.len() {
                        Some(le_u32_at(bytes, 20 + length) as u32)
                    } else {
                        None
                    },
                },
            )
        }
    }
}

impl DatFileRead for Texture {
    open spec fn spec_read(bytes: Seq<u8>) -> Result<TextureView, DatError> {
        spec_texture_read(bytes)
    }

    fn read(bytes: &Vec<u8>) -> (r: Result<Texture, DatError>) {
        let blen = bytes.len();
        if blen < 20 {
            return Err(DatError::InvalidHeader);
        }
        let length = read_le_i32(bytes, 16);
        if length < 0 {
            return Err(DatError::InvalidHeader);
        }
        let data_len = length as usize;
        if data_len > blen - 20 {
            return Err(DatError::InvalidHeader);
        }
        let data = copy_range(bytes, 20, 20 + data_len);
        let default_palette_id = if blen - 20 - data_len >= 4 {
            Some(read_le_u32(bytes, 20 + data_len))
        } else {
            None
        };
        Ok(
            Texture {
                unknown: read_le_i32(bytes, 0),
                width: read_le_i32(bytes, 4),
                height: read_le_i32(bytes, 8),
                format: format_of(read_le_u32(bytes, 12)),
                length,
                data,
                default_palette_id,
            },
        )
    }
}

/// The canonical RGBA bytes of 24-bit blue-green-red pixel data: every
/// 3-byte chunk `[B, G, R]` becomes `[R, G, B, 255]`.
pub open spec fn bgr_to_rgba(data: Seq<u8>) -> Seq<u8> {
    Seq::new(((data.len() / 3) * 4) as nat, |j: int| bgr_rgba_byte(data, j))
}

/// Byte `j` of the RGBA image of 24-bit blue-green-red pixel data.
pub open spec fn bgr_rgba_byte(data: Seq<u8>, j: int) -> u8 {
    let p = j / 4;
    let c = j % 4;
    if c == 0 {
        data[3 * p + 2]
    } else if c == 1 {
        data[3 * p + 1]
    } else if c == 2 {
        data[3 * p]
    } else {
        255u8
    }
}

/// The canonical RGBA bytes of 32-bit blue-green-red-alpha pixel data:
/// every 4-byte chunk `[B, G, R, A]` becomes `[R, G, B, A]`.
pub open spec fn bgra_to_rgba(data: Seq<u8>) -> Seq<u8> {
    Seq::new(((data.len() / 4) * 4) as nat, |j: int| bgra_rgba_byte(data, j))
}

/// Byte `j` of the RGBA image of 32-bit blue-green-red-alpha pixel data.
pub open spec fn bgra_rgba_byte(data: Seq<u8>, j: int) -> u8 {
    let p = j / 4;
    let c = j % 4;
    if c == 0 {
        data[4 * p + 2]
    } else if c == 1 {
        data[4 * p + 1]
    } else if c == 2 {
        data[4 * p]
    } else {
        data[4 * p + 3]
    }
}

proof fn lemma_pixel_index(p: int, c: int)
    requires
        0 <= c < 4,
        0 <= p,
    ensures
        (4 * p + c) / 4 == p,
        (4 * p + c) % 4 == c,
{
    assert((4 * p + c) / 4 == p && (4 * p + c) % 4 == c) by (nonlinear_arith)
        requires
            0 <= c < 4,
            0 <= p,
    ;
}

fn swizzle_bgr(data: &Vec<u8>) -> (r: Vec<u8>)
    ensures
        r@ == bgr_to_rgba(data@),
{
    let len = data.len();
    let n = len / 3;
    let mut out: Vec<u8> = Vec::new();
    let mut p: usize = 0;
    while p < n
        invariant
            n == data@.len() / 3,
            len == data@.len(),
            p <= n,
            out@.len() == 4 * p,
            forall|j: int| 0 <= j < out@.len() ==> out@[j] == bgr_rgba_byte(data@, j),
        decreases n - p,
    {
        let base = 3 * p;
        out.push(data[base + 2]);
        out.push(data[base + 1]);
        out.push(data[base]);
        out.push(255);
        proof {
            lemma_pixel_index(p as int, 0);
            lemma_pixel_index(p as int, 1);
            lemma_pixel_index(p as int, 2);
            lemma_pixel_index(p as int, 3);
        }
        p = p + 1;
    }
    proof {
        assert(out@ =~= bgr_to_rgba(data@));
    }
    out
}

fn swizzle_bgra(data: &Vec<u8>) -> (r: Vec<u8>)
    ensures
        r@ == bgra_to_rgba(data@),
{
    let len = data.len();
    let n = len / 4;
    let mut out: Vec<u8> = Vec::new();
    let mut p: usize = 0;
    while p < n
        invariant
            n == data@.len() / 4,
            len == data@.len(),
            p <= n,
            out@.len() == 4 * p,
            forall|j: int| 0 <= j < out@.len() ==> out@[j] == bgra_rgba_byte(data@, j),
        decreases n - p,
    {
        let base = 4 * p;
        out.push(data[base + 2]);
        out.push(data[base + 1]);
        out.push(data[base]);
        out.push(data[base + 3]);
        proof {
            lemma_pixel_index(p as int, 0);
            lemma_pixel_index(p as int, 1);
            lemma_pixel_index(p as int, 2);
            lemma_pixel_index(p as int, 3);
        }
        p = p + 1;
    }
    proof {
        assert(out@ =~= bgra_to_rgba(data@));
    }
    out
}

impl Texture {
    /// Whether the decoder converts this texture's pixel format.
    pub open spec fn format_supported(&self) -> bool {
        self.format == SurfacePixelFormat::PFID_R8G8B8 || self.format
            == SurfacePixelFormat::PFID_A8R8G8B8
    }

    /// Bytes each pixel of a supported format occupies.
    pub open spec fn bytes_per_pixel(&self) -> int
        recommends
            self.format_supported(),
    {
        if self.format == SurfacePixelFormat::PFID_R8G8B8 {
            3int
        } else {
            4int
        }
    }

    /// Whether the dimensions account for the pixel data: width and
    /// height non-negative and `width * height * bytes_per_pixel` exactly
    /// the data length.
    pub open spec fn shape_ok(&self) -> bool
        recommends
            self.format_supported(),
    {
        &&& self.width >= 0
        &&& self.height >= 0
        &&& self.width * self.height * self.bytes_per_pixel() == self.data@.len()
    }

    /// The canonical RGBA image of the texture's pixel data.
    pub open spec fn spec_export(&self) -> Seq<u8>
        recommends
            self.format_supported(),
    {
        if self.format == SurfacePixelFormat::PFID_R8G8B8 {
            bgr_to_rgba(self.data@)
        } else {
            bgra_to_rgba(self.data@)
        }
    }

    /// Converts the texture's pixel data to canonical RGBA bytes.
    /// A format other than the two supported ones fails with
    /// `UnsupportedPixelFormat`; dimensions that do not account for the
    /// data length fail with `TextureShapeMismatch`.
    pub fn export(&self) -> (r: Result<Vec<u8>, DatError>)
        ensures
            r == Err::<Vec<u8>, DatError>(DatError::UnsupportedPixelFormat)
                <==> !self.format_supported(),
            self.format_supported() ==> (r is Ok <==> self.shape_ok()),
            self.format_supported() && !self.shape_ok() ==> r == Err::<Vec<u8>, DatError>(
                DatError::TextureShapeMismatch,
            ),
            r matches Ok(v) ==> v@ == self.spec_export() && v@.len() == 4 * (self.width as int)
                * (self.height as int),
    {
        let bpp: usize = match self.format {
            SurfacePixelFormat::PFID_R8G8B8 => 3,
            SurfacePixelFormat::PFID_A8R8G8B8 => 4,
            SurfacePixelFormat::Other(_) => {
                return Err(DatError::UnsupportedPixelFormat);
            },
        };
        if self.width < 0 || self.height < 0 {
            return Err(DatError::TextureShapeMismatch);
        }
        let w = self.width as u64;
        let h = self.height as u64;
        proof {
            assert(w * h * (bpp as u64) < 0x10000000000000000) by (nonlinear_arith)
                requires
                    w < 0x80000000,
                    h < 0x80000000,
                    bpp <= 4,
            ;
        }
        let expected: u64 = w * h * (bpp as u64);
        if expected != self.data.len() as u64 {
            proof {
                assert(self.width * self.height * self.bytes_per_pixel() == w * h * (
                bpp as u64)) by (nonlinear_arith)
                    requires
                        w == self.width,
                        h == self.height,
                        bpp == self.bytes_per_pixel(),
                ;
            }
            return Err(DatError::TextureShapeMismatch);
        }
        proof {
            assert(self.width * self.height * self.bytes_per_pixel() == w * h * (
            bpp as u64)) by (nonlinear_arith)
                requires
                    w == self.width,
                    h == self.height,
                    bpp == self.bytes_per_pixel(),
            ;
        }
        let out = if bpp == 3 {
            swizzle_bgr(&self.data)
        } else {
            swizzle_bgra(&self.data)
        };
        proof {
            assert(self.data@.len() / (bpp as nat) == self.width * self.height) by (
            nonlinear_arith)
                requires
                    bpp == 3 || bpp == 4,
                    self.data@.len() == self.width * self.height * (bpp as int),
                    self.width >= 0,
                    self.height >= 0,
            ;
            assert(out@.len() == (self.width * self.height) * 4);
            assert((self.width * self.height) * 4 == 4 * (self.width as int) * (
            self.height as int)) by (nonlinear_arith);
        }
        Ok(out)
    }
}

} // verus!
