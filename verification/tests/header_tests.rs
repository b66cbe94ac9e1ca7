use stego::errors::FormatFault;
use stego::header::{StegoHeader, HEADER_SIZE, VERSION};

#[test]
fn header_layout_is_fixed() {
    let h = StegoHeader {
        total_length: 0x0102030405060708,
        current_offset: 0x1112131415161718,
        message_hash: [9, 8, 7, 6, 5, 4, 3, 2],
        message_id: 0xAABBCCDD,
    };
    let b = h.to_bytes();
    assert_eq!(b.len(), HEADER_SIZE);
    assert_eq!(&b[0..4], b"STEG");
    assert_eq!(b[4], VERSION);
    assert_eq!(&b[5..13], &[1, 2, 3, 4, 5, 6, 7, 8]);
    assert_eq!(&b[13..21], &[0x11, 0x12, 0x13, 0x14, 0x15, 0x16, 0x17, 0x18]);
    assert_eq!(&b[21..29], &[9, 8, 7, 6, 5, 4, 3, 2]);
    assert_eq!(&b[29..33], &[0xAA, 0xBB, 0xCC, 0xDD]);
    assert_eq!(&b[33..36], &[0, 0, 0]);
}

#[test]
fn header_round_trip() {
    let h = StegoHeader {
        total_length: 41,
        current_offset: 0,
        message_hash: [1, 2, 3, 4, 5, 6, 7, 8],
        message_id: 123456789,
    };
    let parsed = StegoHeader::from_bytes(&h.to_bytes()).unwrap();
    assert_eq!(parsed.total_length, 41);
    assert_eq!(parsed.current_offset, 0);
    assert_eq!(parsed.message_hash, [1, 2, 3, 4, 5, 6, 7, 8]);
    assert_eq!(parsed.message_id, 123456789);
}

#[test]
fn rejects_short_buffer() {
    let buf = [0u8; 35];
    let fault = StegoHeader::from_bytes(&buf).unwrap_err();
    assert_eq!(fault, FormatFault::WrongLength { length: 35 });
}

#[test]
fn rejects_long_buffer() {
    let buf = [0u8; 37];
    let fault = StegoHeader::from_bytes(&buf).unwrap_err();
    assert_eq!(fault, FormatFault::WrongLength { length: 37 });
}

#[test]
fn rejects_wrong_magic() {
    let h = StegoHeader {
        total_length: 5,
        current_offset: 0,
        message_hash: [0; 8],
        message_id: 1,
    };
    let mut b = h.to_bytes();
    b[0] = b'X';
    let fault = StegoHeader::from_bytes(&b).unwrap_err();
    assert_eq!(fault, FormatFault::WrongMagic);
}

#[test]
fn rejects_wrong_version_naming_it() {
    let h = StegoHeader {
        total_length: 5,
        current_offset: 0,
        message_hash: [0; 8],
        message_id: 1,
    };
    let mut b = h.to_bytes();
    b[4] = 9;
    let fault = StegoHeader::from_bytes(&b).unwrap_err();
    assert_eq!(fault, FormatFault::WrongVersion { version: 9 });
}
