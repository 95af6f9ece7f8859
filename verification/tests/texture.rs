use libac_rs::block_reader::DatBlockReader;
use libac_rs::database::DatDatabase;
use libac_rs::dat_file::{DatFile, DatFileRead, DatFileType};
use libac_rs::error::DatError;
use libac_rs::icon::Icon;
use libac_rs::lookup::{find_file_by_id, parse_object_id};
use libac_rs::range_reader::MemoryRangeReader;
use libac_rs::texture::{SurfacePixelFormat, Texture};

fn rgba_texture(width: i32, height: i32, data: Vec<u8>) -> Texture {
    Texture {
        unknown: 6,
        width,
        height,
        format: SurfacePixelFormat::PFID_A8R8G8B8,
        length: data.len() as i32,
        data,
        default_palette_id: None,
    }
}

/// A texture record's bytes: the five fixed fields, then the pixel data,
/// then an optional palette identifier.
fn texture_bytes(width: i32, height: i32, format: u32, data: &[u8], palette: Option<u32>) -> Vec<u8> {
    let mut bytes: Vec<u8> = Vec::new();
    bytes.extend_from_slice(&6i32.to_le_bytes());
    bytes.extend_from_slice(&width.to_le_bytes());
    bytes.extend_from_slice(&height.to_le_bytes());
    bytes.extend_from_slice(&format.to_le_bytes());
    bytes.extend_from_slice(&(data.len() as i32).to_le_bytes());
    bytes.extend_from_slice(data);
    if let Some(p) = palette {
        bytes.extend_from_slice(&p.to_le_bytes());
    }
    bytes
}

#[test]
fn bgra_export_swizzles_to_rgba() {
    let t = rgba_texture(2, 1, vec![0x10, 0x20, 0x30, 0xFF, 0x40, 0x50, 0x60, 0x80]);
    let rgba = t.export().unwrap();
    assert_eq!(rgba, vec![0x30, 0x20, 0x10, 0xFF, 0x60, 0x50, 0x40, 0x80]);
}

#[test]
fn bgr_export_adds_opaque_alpha() {
    let t = Texture {
        unknown: 0,
        width: 2,
        height: 1,
        format: SurfacePixelFormat::PFID_R8G8B8,
        length: 6,
        data: vec![1, 2, 3, 4, 5, 6],
        default_palette_id: None,
    };
    let rgba = t.export().unwrap();
    assert_eq!(rgba, vec![3, 2, 1, 255, 6, 5, 4, 255]);
}

#[test]
fn unknown_pixel_format_is_unsupported() {
    let mut t = rgba_texture(1, 1, vec![0, 0, 0, 0]);
    t.format = SurfacePixelFormat::Other(99);
    assert_eq!(t.export(), Err(DatError::UnsupportedPixelFormat));
}

#[test]
fn dimensions_must_account_for_the_data() {
    let t = rgba_texture(2, 2, vec![0u8; 4]);
    assert_eq!(t.export(), Err(DatError::TextureShapeMismatch));
    let t = rgba_texture(-1, 1, vec![0u8; 4]);
    assert_eq!(t.export(), Err(DatError::TextureShapeMismatch));
}

#[test]
fn texture_record_parses() {
    let bytes = texture_bytes(2, 1, 21, &[0x10, 0x20, 0x30, 0xFF, 0x40, 0x50, 0x60, 0x80], None);
    let t = Texture::read(&bytes).unwrap();
    assert_eq!(t.unknown, 6);
    assert_eq!(t.width, 2);
    assert_eq!(t.height, 1);
    assert_eq!(t.format, SurfacePixelFormat::PFID_A8R8G8B8);
    assert_eq!(t.length, 8);
    assert_eq!(t.data, vec![0x10, 0x20, 0x30, 0xFF, 0x40, 0x50, 0x60, 0x80]);
    assert_eq!(t.default_palette_id, None);
}

#[test]
fn texture_record_with_trailing_palette() {
    let bytes = texture_bytes(1, 1, 21, &[1, 2, 3, 4], Some(0x0400_0001));
    let t = Texture::read(&bytes).unwrap();
    assert_eq!(t.default_palette_id, Some(0x0400_0001));
}

#[test]
fn truncated_texture_record_is_invalid() {
    assert!(matches!(Texture::read(&vec![0u8; 10]), Err(DatError::InvalidHeader)));
    // The length field promises more data than the buffer holds.
    let mut bytes = texture_bytes(1, 1, 21, &[1, 2, 3, 4], None);
    bytes.truncate(22);
    assert!(matches!(Texture::read(&bytes), Err(DatError::InvalidHeader)));
}

#[test]
fn framed_entry_decodes_selected_variant() {
    let mut buf: Vec<u8> = Vec::new();
    buf.extend_from_slice(&0x06000001i32.to_le_bytes());
    buf.extend_from_slice(&texture_bytes(1, 1, 21, &[9, 8, 7, 6], None));
    let df = DatFile::read(&buf, libac_rs::dat_file_type::DatFileType::Texture).unwrap();
    assert_eq!(df.id, 0x06000001);
    let DatFileType::Texture(t) = df.inner;
    assert_eq!(t.data, vec![9, 8, 7, 6]);
}

#[test]
fn framed_entry_of_unknown_variant_is_unsupported() {
    let buf = vec![0u8; 32];
    let r = DatFile::read(&buf, libac_rs::dat_file_type::DatFileType::Unknown);
    assert!(matches!(r, Err(DatError::UnsupportedEntryType)));
}

#[test]
fn framed_entry_shorter_than_its_identifier_is_invalid() {
    let buf = vec![0u8; 3];
    let r = DatFile::read(&buf, libac_rs::dat_file_type::DatFileType::Texture);
    assert!(matches!(r, Err(DatError::InvalidHeader)));
}

#[test]
fn icon_layers_stack_bottom_most_first() {
    let base = rgba_texture(1, 1, vec![1, 1, 1, 255]);
    let under = rgba_texture(1, 1, vec![2, 2, 2, 255]);
    let over = rgba_texture(1, 1, vec![3, 3, 3, 255]);
    let icon = Icon {
        width: 1,
        height: 1,
        scale: 1,
        base,
        underlay: Some(under),
        overlay: None,
        overlay2: Some(over),
        effect: None,
    };
    assert_eq!(icon.layer_count(), 3);
    assert_eq!(icon.layer(0).data, vec![2, 2, 2, 255]);
    assert_eq!(icon.layer(1).data, vec![1, 1, 1, 255]);
    assert_eq!(icon.layer(2).data, vec![3, 3, 3, 255]);
}

#[test]
fn extract_texture_end_to_end() {
    // A minimal archive: header, a one-leaf directory, and one texture
    // entry stored as a single chained block.
    const BLOCK_SIZE: u32 = 2048;
    let tex_payload = {
        let mut buf: Vec<u8> = Vec::new();
        buf.extend_from_slice(&1i32.to_le_bytes());
        buf.extend_from_slice(&texture_bytes(
            2,
            1,
            21,
            &[0x10, 0x20, 0x30, 0xFF, 0x40, 0x50, 0x60, 0x80],
            None,
        ));
        buf
    };
    let object_id: u32 = 0x06001B2E;

    let mut data: Vec<u8> = Vec::new();
    // Entry chain at 0x800: zero next pointer, then the payload.
    let entry_offset = 0x800usize;
    data.resize(entry_offset + 4 + tex_payload.len(), 0);
    data[entry_offset + 4..entry_offset + 4 + tex_payload.len()].copy_from_slice(&tex_payload);
    // Leaf node at 0x1000 holding the one entry.
    let mut node: Vec<u8> = vec![0u8; 248];
    node.extend_from_slice(&1u32.to_le_bytes());
    node.extend_from_slice(&0u32.to_le_bytes());
    node.extend_from_slice(&object_id.to_le_bytes());
    node.extend_from_slice(&(entry_offset as u32).to_le_bytes());
    node.extend_from_slice(&(tex_payload.len() as u32).to_le_bytes());
    node.extend_from_slice(&0u32.to_le_bytes());
    node.extend_from_slice(&0u32.to_le_bytes());
    node.resize(0x6B4, 0);
    let node_offset = 0x1000usize;
    data.resize(node_offset + 4 + node.len(), 0);
    data[node_offset..node_offset + 4].copy_from_slice(&0u32.to_le_bytes());
    data[node_offset + 4..node_offset + 4 + node.len()].copy_from_slice(&node);
    // Header.
    if data.len() < 0x140 + 80 {
        data.resize(0x140 + 80, 0);
    }
    data[0x144..0x148].copy_from_slice(&BLOCK_SIZE.to_le_bytes());
    data[0x160..0x164].copy_from_slice(&(node_offset as u32).to_le_bytes());

    let mut reader = MemoryRangeReader::new(data);
    let db = DatDatabase::read(&mut reader).unwrap();
    let files = db.list_files(true).unwrap();
    assert_eq!(files.len(), 1);

    let wanted = parse_object_id(&b"0x06001B2E".to_vec()).unwrap();
    let found = find_file_by_id(&files, wanted).unwrap();
    assert_eq!(found.file_type(), libac_rs::dat_file_type::DatFileType::Texture);

    let buf = DatBlockReader::read(
        &mut reader,
        found.file_offset,
        found.file_size,
        db.header.block_size,
    )
    .unwrap();
    let framed = DatFile::read(&buf, found.file_type()).unwrap();
    assert_eq!(framed.id, 1);
    let DatFileType::Texture(texture) = framed.inner;
    let rgba = texture.export().unwrap();
    assert_eq!(rgba, vec![0x30, 0x20, 0x10, 0xFF, 0x60, 0x50, 0x40, 0x80]);
}
