use switch_usb_host::entry::{from_json, GameEntry};

#[test]
fn plain_entry_json_shape() {
    let e = GameEntry::plain_new("0100000000010000".to_string(), 41896, 1751395579);
    let b = e.to_json();
    let expected = "{\"id\":\"0100000000010000\",\"rightsId\":null,\"name\":null,\"isDLC\":false,\"isUpdate\":false,\"idExt\":0,\"updateId\":\"0100000000010000\",\"version\":null,\"key\":null,\"isDemo\":null,\"region\":null,\"regions\":null,\"baseId\":\"\",\"releaseDate\":null,\"nsuId\":null,\"category\":null,\"ratingContent\":null,\"numberOfPlayers\":null,\"rating\":null,\"developer\":null,\"publisher\":null,\"frontBoxArt\":null,\"iconUrl\":null,\"screenshots\":null,\"bannerUrl\":null,\"intro\":null,\"description\":null,\"size\":41896,\"rank\":null,\"mtime\":1751395579}";
    assert_eq!(b, expected.as_bytes());
}

#[test]
fn entry_round_trips() {
    let e = GameEntry::plain_new("0100000000010000".to_string(), 41896, 1751395579);
    let b = e.to_json();
    let g = from_json(&b).expect("an encoded entry parses");
    assert_eq!(g.id, "0100000000010000");
    assert_eq!(g.update_id.as_deref(), Some("0100000000010000"));
    assert_eq!(g.size, 41896);
    assert_eq!(g.mtime_secs, 1751395579);
}

#[test]
fn zero_fields_round_trip() {
    let e = GameEntry::plain_new(String::new(), 0, 0);
    let g = from_json(&e.to_json()).expect("an encoded entry parses");
    assert_eq!(g.id, "");
    assert_eq!(g.size, 0);
    assert_eq!(g.mtime_secs, 0);
}

#[test]
fn garbage_does_not_parse() {
    assert!(from_json(b"").is_none());
    assert!(from_json(b"{}").is_none());
    assert!(from_json(b"{\"id\":\"x\"").is_none());
    let e = GameEntry::plain_new("x".to_string(), 1, 2);
    let mut b = e.to_json();
    b.pop();
    assert!(from_json(&b).is_none(), "a truncated entry does not parse");
    let mut c = e.to_json();
    c.push(b' ');
    assert!(from_json(&c).is_none(), "trailing bytes do not parse");
}
