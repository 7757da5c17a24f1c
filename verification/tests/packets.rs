use switch_usb_host::packet::{CommandPacket, StatusResponse};
use switch_usb_host::sphaira::{CmdPacket, FileRangePacket, ListPacketResponse, CmdType};

fn le32(x: u32) -> [u8; 4] {
    x.to_le_bytes()
}

fn le64(x: u64) -> [u8; 8] {
    x.to_le_bytes()
}

#[test]
fn command_packet_layout() {
    let p = CommandPacket::new(1, 12);
    let b = p.to_bytes();
    assert_eq!(b.len(), 32);
    assert_eq!(&b[0..4], &[0x12, 0x12, 0x12, 0x12]);
    assert_eq!(&b[4..8], &le32(1));
    assert_eq!(&b[8..16], &le64(12));
    assert_eq!(&b[16..32], &[0u8; 16]);
}

#[test]
fn command_packet_round_trip() {
    let p = CommandPacket::new(1, 0x0123_4567_89AB_CDEF);
    let b = p.to_bytes();
    let q = CommandPacket::from_raw(&b).expect("magic is valid");
    assert_eq!(q, p);
}

#[test]
fn command_packet_re_encode_identity() {
    // Every bit of the Tinfoil header is a field, so decode then encode
    // reproduces any 32-byte buffer with a valid magic.
    let mut raw = [0u8; 32];
    raw[0..4].copy_from_slice(&[0x12, 0x12, 0x12, 0x12]);
    for i in 4..32 {
        raw[i] = i as u8;
    }
    let p = CommandPacket::from_raw(&raw).expect("magic is valid");
    assert_eq!(p.to_bytes().as_slice(), &raw);
}

#[test]
fn command_packet_bad_magic() {
    let mut b = CommandPacket::new(1, 5).to_bytes();
    b[0] = 0x13;
    assert!(CommandPacket::from_raw(&b).is_none());
}

#[test]
fn cmd_packet_layout_and_round_trip() {
    let p = CmdPacket::new(1, 999);
    let b = p.to_bytes();
    assert_eq!(b.len(), 32);
    assert_eq!(&b[0..4], b"TUC0");
    assert_eq!(b[4], 0);
    assert_eq!(&b[5..8], &[0u8; 3]);
    assert_eq!(&b[8..12], &le32(1));
    assert_eq!(&b[12..20], &le64(999));
    assert_eq!(&b[20..32], &[0u8; 12]);
    let q = CmdPacket::from_raw(&b).expect("magic is valid");
    assert_eq!(q, p);
}

#[test]
fn cmd_packet_re_encode_modulo_padding() {
    let mut raw = [0u8; 32];
    raw[0..4].copy_from_slice(b"TUC0");
    raw[4] = 7;
    raw[8..12].copy_from_slice(&le32(1));
    raw[12..20].copy_from_slice(&le64(0xAABB));
    // dirty the padding: decode ignores it, re-encode zeroes it
    raw[5] = 0xFF;
    raw[31] = 0xFF;
    let p = CmdPacket::from_raw(&raw).expect("magic is valid");
    let b = p.to_bytes();
    assert_eq!(&b[0..5], &raw[0..5]);
    assert_eq!(&b[8..20], &raw[8..20]);
    assert_eq!(&b[5..8], &[0u8; 3]);
    assert_eq!(&b[20..32], &[0u8; 12]);
}

#[test]
fn cmd_packet_bad_magic() {
    let raw = [0u8; 32];
    assert!(CmdPacket::from_raw(&raw).is_err());
}

#[test]
fn file_range_packet_round_trip() {
    let p = FileRangePacket::new(0x400000, 77, 9);
    let b = p.to_bytes();
    assert_eq!(b.len(), 32);
    assert_eq!(&b[0..8], &le64(0x400000));
    assert_eq!(&b[8..16], &le64(77));
    assert_eq!(&b[16..24], &le64(9));
    assert_eq!(&b[24..32], &[0u8; 8]);
    let q = FileRangePacket::from_raw(&b);
    assert_eq!(q, p);
}

#[test]
fn list_packet_layout() {
    let p = ListPacketResponse::new(12);
    let b = p.to_bytes();
    assert_eq!(b.len(), 16);
    assert_eq!(&b[0..4], b"TUL0");
    assert_eq!(&b[4..8], &le32(12));
    assert_eq!(&b[8..16], &[0u8; 8]);
}

#[test]
fn cmd_type_ids() {
    assert_eq!(CmdType::from_cmd_id(0), Some(CmdType::Exit));
    assert_eq!(CmdType::from_cmd_id(1), Some(CmdType::FileRange));
    assert_eq!(CmdType::from_cmd_id(2), None);
    assert_eq!(CmdType::Exit.cmd_id(), 0);
    assert_eq!(CmdType::FileRange.cmd_id(), 1);
}

#[test]
fn status_response_json() {
    let r = StatusResponse::new(false, "nope".to_string());
    assert_eq!(r.to_json(), b"{\"success\":false,\"message\":\"nope\"}");
    let ok = StatusResponse::new(true, String::new());
    assert_eq!(ok.to_json(), b"{\"success\":true,\"message\":\"\"}");
}
