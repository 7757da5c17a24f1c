use switch_usb_host::game::{Extractor, Game, GameInfo};
use switch_usb_host::listing::Listing;
use switch_usb_host::sphaira::{
    file_range_response, listing_payload, sphaira_greeting, CmdPacket, CmdType, FileRangePacket,
};

fn game(id: &str, name: &str, size: u64, path: &str) -> Game {
    let ex = Extractor { title_id: id.to_string(), version: "0".to_string() };
    Game::new(GameInfo::new(ex, name.to_string(), size), path.to_string())
}

fn two_file_listing() -> Listing {
    let mut l = Listing::new();
    l.insert_game(game("0100000000010000", "A.nsp", 10, "A.nsp"));
    l.insert_game(game("0100000000020000", "B.nsp", 20, "B.nsp"));
    l
}

#[test]
fn listing_payload_is_newline_delimited() {
    let l = two_file_listing();
    assert_eq!(listing_payload(&l), b"A.nsp\nB.nsp\n");
}

#[test]
fn greeting_announces_the_payload_length() {
    // Two files: a TUL0 header carrying the payload's byte length, eight
    // padding bytes, then the newline-delimited list.
    let l = two_file_listing();
    let g = sphaira_greeting(&l).expect("payload fits 32 bits");
    assert_eq!(&g[0..4], b"TUL0");
    assert_eq!(&g[4..8], &12u32.to_le_bytes());
    assert_eq!(&g[8..16], &[0u8; 8]);
    assert_eq!(&g[16..], b"A.nsp\nB.nsp\n");
}

#[test]
fn greeting_of_an_empty_listing() {
    let l = Listing::new();
    let g = sphaira_greeting(&l).expect("empty payload fits");
    assert_eq!(g.len(), 16);
    assert_eq!(&g[4..8], &0u32.to_le_bytes());
}

#[test]
fn exit_command_round_trip() {
    // An Exit command ends the session normally; its packet carries
    // command identifier 0.
    let req = CmdPacket::new(CmdType::Exit.cmd_id(), 0).to_bytes();
    let parsed = CmdPacket::from_raw(&req).expect("magic is TUC0");
    assert_eq!(CmdType::from_cmd_id(parsed.cmd_id), Some(CmdType::Exit));
}

#[test]
fn file_range_request_round_trip() {
    let name = b"B.nsp";
    let req = FileRangePacket::new(20, 5, name.len() as u64).to_bytes();
    let parsed = FileRangePacket::from_raw(&req);
    assert_eq!(parsed.range_size, 20);
    assert_eq!(parsed.range_offset, 5);
    assert_eq!(parsed.name_len, 5);
}

#[test]
fn file_range_response_shape() {
    // The response opens with a TUC0 command packet whose identifier is
    // the file-range command and whose size echoes the request; exactly
    // the range's bytes follow.
    let data: Vec<u8> = (0..100u8).collect();
    let resp = file_range_response(&data, 100);
    assert_eq!(resp.len(), 132);
    let header = CmdPacket::from_raw(&resp[0..32]).expect("magic is TUC0");
    assert_eq!(header.cmd_id, 1);
    assert_eq!(header.data_size, 100);
    assert_eq!(&resp[32..], data.as_slice());
}

#[test]
fn file_range_response_of_an_empty_range() {
    let data: Vec<u8> = Vec::new();
    let resp = file_range_response(&data, 0);
    assert_eq!(resp.len(), 32);
    assert_eq!(CmdPacket::from_raw(&resp).unwrap().cmd_id, 1);
}
