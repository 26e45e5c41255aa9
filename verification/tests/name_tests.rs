use goldy_doom::name::{IntoWadName, NameError, WadName};

#[test]
fn from_bytes_uppercases_and_pads() {
    let n = WadName::from_bytes(b"e1m1").unwrap();
    assert_eq!(n.bytes(), *b"E1M1\0\0\0\0");
    assert_eq!(n.trimmed_bytes(), b"E1M1".to_vec());
}

#[test]
fn from_bytes_stops_at_nul() {
    let n = WadName::from_bytes(b"SKY1\0junk!!!!").unwrap();
    assert_eq!(n.bytes(), *b"SKY1\0\0\0\0");
}

#[test]
fn from_bytes_errors() {
    assert_eq!(WadName::from_bytes(b"TOOLONGNAME"), Err(NameError::TooLong));
    assert_eq!(WadName::from_bytes(b"BAD NAME"), Err(NameError::InvalidCharacter(b' ')));
    assert_eq!(WadName::from_bytes(&[b'A', 0xC3, 0xA9]), Err(NameError::NonAscii));
    assert_eq!(WadName::from_bytes(b"a.b"), Err(NameError::InvalidCharacter(b'.')));
}

#[test]
fn from_bytes_exactly_eight() {
    let n = WadName::from_bytes(b"ABCDEFGH").unwrap();
    assert_eq!(n.bytes(), *b"ABCDEFGH");
    assert_eq!(WadName::from_bytes(b""), Ok(WadName::from_bytes(b"\0").unwrap()));
}

#[test]
fn from_bytes_is_idempotent() {
    let n = WadName::from_bytes(b"w94_1").unwrap();
    let again = WadName::from_bytes(&n.bytes()).unwrap();
    assert_eq!(n, again);
}

#[test]
fn from_bytes_ignores_case() {
    assert_eq!(WadName::from_bytes(b"skY2"), WadName::from_bytes(b"SKY2"));
}

#[test]
fn from_str_matches_from_bytes() {
    assert_eq!(WadName::from_str("map01"), WadName::from_bytes(b"MAP01"));
}

#[test]
fn push_appends_at_first_nul() {
    let mut n = WadName::from_bytes(b"TROO").unwrap();
    assert_eq!(n.push(b'a'), Ok(()));
    assert_eq!(n.push(b'1'), Ok(()));
    assert_eq!(n.bytes(), *b"TROOA1\0\0");
}

#[test]
fn push_rejects_invalid_and_full() {
    let mut n = WadName::from_bytes(b"ABCDEFG").unwrap();
    assert_eq!(n.push(b'*'), Err(NameError::InvalidCharacter(b'*')));
    assert_eq!(n.bytes(), *b"ABCDEFG\0");
    assert_eq!(n.push(b'h'), Ok(()));
    assert_eq!(n.push(b'I'), Err(NameError::TooLong));
    assert_eq!(n.bytes(), *b"ABCDEFGH");
}

#[test]
fn eq_bytes_and_key() {
    let a = WadName::from_bytes(b"THINGS").unwrap();
    assert!(a.eq_bytes(b"THINGS\0\0"));
    assert!(!a.eq_bytes(b"THING\0\0\0"));
    let b = WadName::from_bytes(b"LINEDEFS").unwrap();
    assert_ne!(a.key(), b.key());
    assert_eq!(a.key(), u64::from_le_bytes(*b"THINGS\0\0"));
}

#[test]
fn into_wad_name_conversions() {
    let expected = WadName::from_bytes(b"PLAYPAL").unwrap();
    assert_eq!("playpal".into_wad_name(), Ok(expected));
    assert_eq!((&b"PLAYPAL\0"[..]).into_wad_name(), Ok(expected));
    assert_eq!(b"PLAYPAL\0".into_wad_name(), Ok(expected));
    assert_eq!(expected.into_wad_name(), Ok(expected));
    assert_eq!("PLAY PAL".into_wad_name(), Err(NameError::InvalidCharacter(b' ')));
}

#[test]
fn trimmed_text_reads_back() {
    for s in ["E1M1", "SKY1", "F_SKY1", "PLAYPAL", "THINGS", "X", "AB_CD-[]"] {
        let n = WadName::from_str(s).unwrap();
        assert_eq!(WadName::from_bytes(&n.trimmed_bytes()), Ok(n));
    }
    let lower = WadName::from_bytes(b"map01\0zz").unwrap();
    assert_eq!(WadName::from_bytes(&lower.trimmed_bytes()), Ok(lower));
}

#[test]
fn names_order_by_bytes() {
    let a = WadName::from_str("E1M1").unwrap();
    let b = WadName::from_str("E1M2").unwrap();
    let c = WadName::from_str("E1M").unwrap();
    assert!(a < b);
    assert!(c < a);
    assert_eq!(a.cmp(&a), std::cmp::Ordering::Equal);
    let mut v = vec![b, a, c];
    v.sort();
    assert_eq!(v, vec![c, a, b]);
}
