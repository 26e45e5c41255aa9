use goldy_doom::archive::{Archive, ArchiveError};
use goldy_doom::meta::{AnimationMetadata, ThingDirectoryMetadata, WadMetadata};
use goldy_doom::name::{NameError, WadName};

fn meta() -> WadMetadata {
    WadMetadata::new(
        vec![],
        AnimationMetadata { flats: vec![], walls: vec![] },
        ThingDirectoryMetadata {
            decorations: vec![],
            weapons: vec![],
            powerups: vec![],
            artifacts: vec![],
            ammo: vec![],
            keys: vec![],
            monsters: vec![],
        },
        vec![],
    )
}

/// A WAD with the given lumps: data first, directory at the end.
fn wad(lumps: &[(&[u8], &[u8])]) -> Vec<u8> {
    let mut data: Vec<u8> = Vec::new();
    let mut dir: Vec<u8> = Vec::new();
    let mut pos = 12u32;
    for (name, content) in lumps {
        data.extend_from_slice(content);
        dir.extend_from_slice(&(pos as i32).to_le_bytes());
        dir.extend_from_slice(&(content.len() as i32).to_le_bytes());
        let mut n = [0u8; 8];
        n[..name.len()].copy_from_slice(name);
        dir.extend_from_slice(&n);
        pos += content.len() as u32;
    }
    let mut out = b"IWAD".to_vec();
    out.extend_from_slice(&(lumps.len() as i32).to_le_bytes());
    out.extend_from_slice(&(pos as i32).to_le_bytes());
    out.extend_from_slice(&data);
    out.extend_from_slice(&dir);
    out
}

fn sample() -> Vec<u8> {
    wad(&[
        (b"PLAYPAL", &[1, 2, 3, 4, 5, 6]),
        (b"E1M1", &[]),
        (b"THINGS", &[10, 0, 20, 0, 30, 0, 40, 0]),
        (b"E1M2", &[]),
        (b"THINGS", &[50, 0, 60, 0]),
        (b"PLAYPAL", &[7, 8, 9]),
    ])
}

#[test]
fn open_finds_levels_and_lumps() {
    let a = Archive::open(sample(), meta()).unwrap();
    assert_eq!(a.num_levels(), 2);
    assert_eq!(a.level_lump(0).unwrap().name(), WadName::from_str("E1M1").unwrap());
    assert_eq!(a.level_lump(1).unwrap().index(), 3);
    assert!(a.level_lump(1).unwrap().is_virtual());
    assert!(a.metadata().sky.is_empty());
}

#[test]
fn named_lump_finds_last() {
    let a = Archive::open(sample(), meta()).unwrap();
    let r = a.named_lump(&WadName::from_str("PLAYPAL").unwrap()).unwrap().unwrap();
    assert_eq!(r.index(), 5);
    assert_eq!(r.read_bytes().unwrap(), vec![7, 8, 9]);
    assert!(a.named_lump(&WadName::from_str("COLORMAP").unwrap()).unwrap().is_none());
}

#[test]
fn required_named_lump_errors() {
    let a = Archive::open(sample(), meta()).unwrap();
    assert_eq!(a.required_named_lump("things").unwrap().index(), 4);
    match a.required_named_lump("COLORMAP") {
        Err(ArchiveError::MissingLump(n)) => assert_eq!(n, WadName::from_str("COLORMAP").unwrap()),
        _ => panic!("expected a missing lump"),
    }
    match a.required_named_lump("BAD NAME") {
        Err(ArchiveError::InvalidName(e)) => assert_eq!(e, NameError::InvalidCharacter(b' ')),
        _ => panic!("expected an invalid name"),
    }
}

#[test]
fn lump_by_index_bounds() {
    let a = Archive::open(sample(), meta()).unwrap();
    assert_eq!(a.lump_by_index(0).unwrap().name(), WadName::from_str("PLAYPAL").unwrap());
    assert!(matches!(a.lump_by_index(6), Err(ArchiveError::LumpOutOfBounds(6))));
}

#[test]
fn read_blobs_and_decode_vec() {
    let a = Archive::open(sample(), meta()).unwrap();
    let things = a.lump_by_index(2).unwrap();
    assert_eq!(things.read_blobs(4).unwrap(), vec![vec![10, 0, 20, 0], vec![30, 0, 40, 0]]);
    assert_eq!(things.decode_vec(2).unwrap(), vec![vec![10, 0], vec![20, 0], vec![30, 0], vec![40, 0]]);
    assert!(matches!(
        things.read_blobs(3),
        Err(ArchiveError::BadLumpSize { lump: 2, size: 8, element: 3 })
    ));
    let marker = a.lump_by_index(1).unwrap();
    assert!(matches!(
        marker.decode_vec(2),
        Err(ArchiveError::BadLumpSize { lump: 1, size: 0, element: 2 })
    ));
}

#[test]
fn read_bytes_into_appends() {
    let a = Archive::open(sample(), meta()).unwrap();
    let mut bytes = vec![0xaa];
    a.lump_by_index(0).unwrap().read_bytes_into(&mut bytes).unwrap();
    assert_eq!(bytes, vec![0xaa, 1, 2, 3, 4, 5, 6]);
}

#[test]
fn lump_past_end_of_file() {
    // One lump whose size runs past the end of the file.
    let mut w = b"IWAD".to_vec();
    w.extend_from_slice(&1i32.to_le_bytes());
    w.extend_from_slice(&16i32.to_le_bytes());
    w.extend_from_slice(&[1, 2, 3, 4]);
    w.extend_from_slice(&12i32.to_le_bytes());
    w.extend_from_slice(&40i32.to_le_bytes());
    w.extend_from_slice(b"DATA\0\0\0\0");
    let a = Archive::open(w, meta()).unwrap();
    let r = a.lump_by_index(0).unwrap();
    let mut bytes = Vec::new();
    assert!(matches!(r.read_bytes_into(&mut bytes), Err(ArchiveError::ReadFailed(0))));
    assert_eq!(bytes.len(), 40);
    assert_eq!(&bytes[..4], &[1, 2, 3, 4]);
    assert_eq!(&bytes[4..8], &[12, 0, 0, 0]);
    assert_eq!(&bytes[20..], &[0u8; 20]);
    assert!(matches!(r.read_bytes(), Err(ArchiveError::ReadFailed(0))));
    assert!(matches!(r.read_blobs(8), Err(ArchiveError::ReadFailed(0))));
    // 20 bytes are in the file from offset 12, so element 2 of 8 bytes is the first cut.
    assert!(matches!(r.decode_vec(8), Err(ArchiveError::BadElement { lump: 0, element: 2 })));
}

#[test]
fn negative_lump_offset() {
    let mut w = b"IWAD".to_vec();
    w.extend_from_slice(&1i32.to_le_bytes());
    w.extend_from_slice(&12i32.to_le_bytes());
    w.extend_from_slice(&(-4i32).to_le_bytes());
    w.extend_from_slice(&4i32.to_le_bytes());
    w.extend_from_slice(b"DATA\0\0\0\0");
    let a = Archive::open(w, meta()).unwrap();
    let r = a.lump_by_index(0).unwrap();
    assert!(r.can_read());
    assert!(matches!(r.read_bytes(), Err(ArchiveError::LumpSeekFailed(0))));
    assert!(matches!(r.decode_vec(4), Err(ArchiveError::LumpSeekFailed(0))));
}

#[test]
fn open_errors() {
    assert!(matches!(Archive::open(b"IWAD".to_vec(), meta()), Err(ArchiveError::MissingHeader)));
    let mut pwad = sample();
    pwad[0] = b'P';
    assert!(matches!(
        Archive::open(pwad, meta()),
        Err(ArchiveError::InvalidIdentifier(b'P', b'W', b'A', b'D'))
    ));
    let mut neg_table = b"IWAD".to_vec();
    neg_table.extend_from_slice(&0i32.to_le_bytes());
    neg_table.extend_from_slice(&(-1i32).to_le_bytes());
    assert!(matches!(Archive::open(neg_table, meta()), Err(ArchiveError::DirectorySeekFailed)));
    let mut cut = sample();
    cut.truncate(cut.len() - 4);
    assert!(matches!(Archive::open(cut, meta()), Err(ArchiveError::InvalidLumpInfo(5))));
    let mut bad_name = sample();
    let len = bad_name.len();
    bad_name[len - 8] = b'*';
    assert!(matches!(Archive::open(bad_name, meta()), Err(ArchiveError::InvalidLumpInfo(5))));
}

#[test]
fn can_open_detects_incomplete_inputs() {
    assert!(Archive::can_open(&sample()));
    assert!(Archive::can_open(b"PWAD"));
    let things_first = wad(&[(b"THINGS", &[1, 2]), (b"E1M1", &[])]);
    assert!(!Archive::can_open(&things_first));
    let mut negative = b"IWAD".to_vec();
    negative.extend_from_slice(&(-1i32).to_le_bytes());
    negative.extend_from_slice(&12i32.to_le_bytes());
    assert!(!Archive::can_open(&negative));
}

#[test]
fn level_markers_precede_things() {
    let a = Archive::open(sample(), meta()).unwrap();
    let things = WadName::from_str("THINGS").unwrap();
    for level in 0..a.num_levels() {
        let marker = a.level_lump(level).unwrap();
        assert_eq!(a.lump_by_index(marker.index() + 1).unwrap().name(), things);
    }
}

use goldy_doom::types::{WadThing, WAD_THING_SIZE};

#[test]
fn thing_reads_little_endian_fields() {
    let bytes = [0x40, 0x00, 0xF0, 0xFF, 0x5A, 0x00, 0x01, 0x00, 0x07, 0x80, 0xAA];
    let t = WadThing::from_bytes(&bytes).unwrap();
    assert_eq!(t, WadThing { x: 64, y: -16, angle: 90, thing_type: 1, flags: 0x8007 });
    assert_eq!(WadThing::from_bytes(&bytes[..WAD_THING_SIZE]), Some(t));
    assert_eq!(WadThing::from_bytes(&bytes[..9]), None);
    assert_eq!(WadThing::from_bytes(&[]), None);
}
