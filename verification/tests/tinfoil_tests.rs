use switch_usb_host::device::SwitchCommError;
use switch_usb_host::game::{Extractor, Game, GameInfo};
use switch_usb_host::listing::Listing;
use switch_usb_host::packet::CommandPacket;
use switch_usb_host::strutil::parse_u64;
use switch_usb_host::tinfoil::{
    error_response, frame_text, parse_request_header, payload_to_string, search_json,
    status_json, TinfoilAction, TinfoilQuery, TinfoilQueryError, TinfoilQueryErrorKind,
};

fn game(id: &str, name: &str, size: u64, path: &str) -> Game {
    let ex = Extractor { title_id: id.to_string(), version: "0".to_string() };
    Game::new(GameInfo::new(ex, name.to_string(), size), path.to_string())
}

fn two_game_listing() -> Listing {
    let mut l = Listing::new();
    l.insert_game(game("0100000000010000", "A.nsp", 10, "/g/A.nsp"));
    l.insert_game(game("0100000000020000", "B.nsp", 20, "/g/B.nsp"));
    l
}

fn bad_query(r: Result<TinfoilAction, TinfoilQueryError>) -> TinfoilQueryErrorKind {
    match r {
        Err(TinfoilQueryError::BadQuery(k)) => k,
        _ => panic!("expected a recoverable query error"),
    }
}

#[test]
fn request_header_parses_size() {
    let b = CommandPacket::new(1, 12).to_bytes();
    assert_eq!(parse_request_header(&b).expect("valid header"), 12);
}

#[test]
fn request_header_rejects_bad_magic_and_cmd() {
    let mut b = CommandPacket::new(1, 12).to_bytes();
    b[2] = 0;
    assert!(matches!(parse_request_header(&b), Err(SwitchCommError::BadMagic)));
    let b2 = CommandPacket::new(7, 12).to_bytes();
    assert!(matches!(parse_request_header(&b2), Err(SwitchCommError::UnknownCmd)));
}

#[test]
fn payload_must_be_utf8() {
    assert_eq!(payload_to_string(b"/api/search").expect("ascii"), "/api/search");
    assert!(matches!(
        payload_to_string(&[0xFF, 0xFE]),
        Err(SwitchCommError::CorruptedCmd)
    ));
}

#[test]
fn search_lists_both_games() {
    // A search over a two-game listing: one framed JSON array with both
    // records, in insertion order.
    let l = two_game_listing();
    let action = TinfoilQuery::process_query(&l, "/api/search").expect("search succeeds");
    let expected_json = "[{\"id\":\"0100000000010000\",\"name\":\"A.nsp\",\"size\":10,\"version\":\"0\"},{\"id\":\"0100000000020000\",\"name\":\"B.nsp\",\"size\":20,\"version\":\"0\"}]";
    match action {
        TinfoilAction::Respond(b) => {
            let header = CommandPacket::from_raw(&b[0..32]).expect("framed");
            assert_eq!(header.cmd, 1);
            assert_eq!(header.size, expected_json.len() as u64);
            assert_eq!(&b[32..], expected_json.as_bytes());
        },
        _ => panic!("search answers with bytes"),
    }
    assert_eq!(search_json(&l), expected_json.as_bytes());
}

#[test]
fn queue_answers_an_empty_array() {
    let l = two_game_listing();
    match TinfoilQuery::process_query(&l, "/api/queue").expect("queue succeeds") {
        TinfoilAction::Respond(b) => {
            assert_eq!(&b[32..], b"[]");
            assert_eq!(CommandPacket::from_raw(&b[0..32]).unwrap().size, 2);
        },
        _ => panic!("queue answers with bytes"),
    }
}

#[test]
fn trailing_question_marks_are_stripped() {
    let l = two_game_listing();
    assert!(matches!(
        TinfoilQuery::process_query(&l, "/api/queue??").expect("queue succeeds"),
        TinfoilAction::Respond(_)
    ));
}

#[test]
fn info_names_the_game_to_describe() {
    let l = two_game_listing();
    match TinfoilQuery::process_query(&l, "/api/info/0100000000020000").expect("info succeeds") {
        TinfoilAction::SendEntry { path, id, size } => {
            assert_eq!(path, "/g/B.nsp");
            assert_eq!(id, "0100000000020000");
            assert_eq!(size, 20);
        },
        _ => panic!("info asks for an entry"),
    }
}

#[test]
fn download_with_explicit_range() {
    // A download of bytes 100..200: the reply streams 100 bytes starting
    // at offset 100.
    let l = two_game_listing();
    match TinfoilQuery::process_query(&l, "/api/download/0100000000010000/100/200").expect("range is valid") {
        TinfoilAction::SendFile { path, start, len } => {
            assert_eq!(path, "/g/A.nsp");
            assert_eq!(start, 100);
            assert_eq!(len, 100);
        },
        _ => panic!("download streams a file"),
    }
}

#[test]
fn download_defaults_to_the_whole_file() {
    let l = two_game_listing();
    match TinfoilQuery::process_query(&l, "/api/download/0100000000010000").expect("defaults apply") {
        TinfoilAction::SendFile { start, len, .. } => {
            assert_eq!(start, 0);
            assert_eq!(len, 10);
        },
        _ => panic!("download streams a file"),
    }
    match TinfoilQuery::process_query(&l, "/api/download/0100000000010000/4").expect("end defaults") {
        TinfoilAction::SendFile { start, len, .. } => {
            assert_eq!(start, 4);
            assert_eq!(len, 6);
        },
        _ => panic!("download streams a file"),
    }
}

#[test]
fn reversed_range_is_recoverable() {
    // A reversed range is answered with a JSON status and the session
    // goes on.
    let l = two_game_listing();
    let kind = bad_query(TinfoilQuery::process_query(&l, "/api/download/0100000000010000/500/100"));
    assert!(matches!(kind, TinfoilQueryErrorKind::BadRange));
    assert_eq!(kind.message(), "bad download range");
    let resp = error_response(&kind);
    let header = CommandPacket::from_raw(&resp[0..32]).expect("framed");
    let body = &resp[32..];
    assert_eq!(header.size, body.len() as u64);
    assert_eq!(body, b"{\"success\":false,\"message\":\"bad download range\"}");
}

#[test]
fn unparsable_bounds_are_a_bad_range() {
    let l = two_game_listing();
    assert!(matches!(
        bad_query(TinfoilQuery::process_query(&l, "/api/download/0100000000010000/abc")),
        TinfoilQueryErrorKind::BadRange
    ));
    assert!(matches!(
        bad_query(TinfoilQuery::process_query(&l, "/api/download/0100000000010000/1/")),
        TinfoilQueryErrorKind::BadRange
    ));
}

#[test]
fn unknown_game_is_not_found() {
    let l = two_game_listing();
    let kind = bad_query(TinfoilQuery::process_query(&l, "/api/download/0100000000099999/0/1"));
    match kind {
        TinfoilQueryErrorKind::GameNotFound(s) => assert_eq!(s, "0100000000099999"),
        other => panic!("expected game-not-found, got {other:?}"),
    }
    assert!(matches!(
        bad_query(TinfoilQuery::process_query(&l, "/api/info/zzzz")),
        TinfoilQueryErrorKind::GameNotFound(_)
    ));
}

#[test]
fn missing_title_id_in_query() {
    let l = two_game_listing();
    assert!(matches!(
        bad_query(TinfoilQuery::process_query(&l, "/api/info")),
        TinfoilQueryErrorKind::NoIdInfoQuery
    ));
    assert!(matches!(
        bad_query(TinfoilQuery::process_query(&l, "/api/download")),
        TinfoilQueryErrorKind::NoIdInfoQuery
    ));
}

#[test]
fn unsupported_shapes() {
    let l = two_game_listing();
    match bad_query(TinfoilQuery::process_query(&l, "no-slash")) {
        TinfoilQueryErrorKind::UnsupportedCmd(p) => assert_eq!(p, "no-slash"),
        other => panic!("expected unsupported cmd, got {other:?}"),
    }
    assert!(matches!(
        bad_query(TinfoilQuery::process_query(&l, "/api")),
        TinfoilQueryErrorKind::UnsupportedCmd(_)
    ));
    match bad_query(TinfoilQuery::process_query(&l, "/web/search")) {
        TinfoilQueryErrorKind::UnsupportedEndpoint(e) => assert_eq!(e, "web"),
        other => panic!("expected unsupported endpoint, got {other:?}"),
    }
    match bad_query(TinfoilQuery::process_query(&l, "/api/wat")) {
        TinfoilQueryErrorKind::UnsupportedReqType(t) => assert_eq!(t, "wat"),
        other => panic!("expected unsupported req type, got {other:?}"),
    }
}

#[test]
fn query_splits_into_three_parts() {
    let q = TinfoilQuery::from_payload("/api/download/0100/1/2").expect("well-formed");
    assert_eq!(q.endpoint, "api");
    assert_eq!(q.req_type, "download");
    assert_eq!(q.query.as_deref(), Some("0100/1/2"));
    let q2 = TinfoilQuery::from_payload("/api/search").expect("well-formed");
    assert!(q2.query.is_none());
}

#[test]
fn frame_text_prefixes_the_payload_length() {
    let framed = frame_text(b"hello");
    assert_eq!(framed.len(), 37);
    let h = CommandPacket::from_raw(&framed[0..32]).unwrap();
    assert_eq!(h.cmd, 1);
    assert_eq!(h.size, 5);
    assert_eq!(&framed[32..], b"hello");
}

#[test]
fn status_json_escapes_the_message() {
    assert_eq!(
        status_json(false, "a \"b\" \\ c"),
        b"{\"success\":false,\"message\":\"a \\\"b\\\" \\\\ c\"}"
    );
    assert_eq!(status_json(true, "ok"), b"{\"success\":true,\"message\":\"ok\"}");
    assert_eq!(
        status_json(false, "l1\nl2"),
        b"{\"success\":false,\"message\":\"l1\\u000al2\"}"
    );
}

#[test]
fn decimal_parsing_matches_the_standard_grammar() {
    assert_eq!(parse_u64("0"), Some(0));
    assert_eq!(parse_u64("+5"), Some(5));
    assert_eq!(parse_u64("18446744073709551615"), Some(u64::MAX));
    assert_eq!(parse_u64("18446744073709551616"), None);
    assert_eq!(parse_u64(""), None);
    assert_eq!(parse_u64("+"), None);
    assert_eq!(parse_u64("12a"), None);
    assert_eq!(parse_u64("-1"), None);
}
