use switch_usb_host::nsp::{Nsp, NspParsingError, PFS0Header};

/// Assemble a container body (file table + string table) for the given
/// entry names, with strictly increasing data offsets, and the header
/// that describes it.
fn build_container(names: &[&[u8]]) -> (PFS0Header, Vec<u8>) {
    let mut table: Vec<u8> = Vec::new();
    let mut entries: Vec<u8> = Vec::new();
    for (i, name) in names.iter().enumerate() {
        let s_off = table.len() as u32;
        table.extend_from_slice(name);
        entries.extend_from_slice(&(i as u64 * 0x1000).to_le_bytes());
        entries.extend_from_slice(&0x800u64.to_le_bytes());
        entries.extend_from_slice(&s_off.to_le_bytes());
        entries.extend_from_slice(&[0u8; 4]);
    }
    let mut header_bytes = Vec::new();
    header_bytes.extend_from_slice(b"PFS0");
    header_bytes.extend_from_slice(&(names.len() as u32).to_le_bytes());
    header_bytes.extend_from_slice(&(table.len() as u32).to_le_bytes());
    header_bytes.extend_from_slice(&[0u8; 4]);
    let header = PFS0Header::parse(&header_bytes).expect("magic is PFS0");
    let mut body = entries;
    body.extend_from_slice(&table);
    (header, body)
}

#[test]
fn header_magic_is_checked() {
    let bytes = *b"PFS1\x02\x00\x00\x00\x10\x00\x00\x00\x00\x00\x00\x00";
    assert!(matches!(
        PFS0Header::parse(&bytes),
        Err(NspParsingError::MalformedHeader)
    ));
}

#[test]
fn header_fields_are_little_endian() {
    let bytes = *b"PFS0\x02\x00\x00\x00\x10\x00\x00\x00\xFF\xFF\xFF\xFF";
    let h = PFS0Header::parse(&bytes).expect("magic is PFS0");
    assert_eq!(h.n_files, 2);
    assert_eq!(h.s_table_size, 16);
}

#[test]
fn pfs0_fallback_title_id() {
    // A synthetic archive with a ticket entry and a meta entry: the
    // title ID is the ticket name's first 16 characters, uppercased.
    let (header, body) = build_container(&[b"0100ABCDEF123456.tik", b"meta.cnmt.nca"]);
    let nsp = Nsp::from_parts(header, &body).expect("container is well-formed");
    assert_eq!(nsp.title_id().expect("ticket is present"), "0100ABCDEF123456");
}

#[test]
fn title_id_is_uppercased() {
    let (header, body) = build_container(&[b"0100abcdef123456.tik"]);
    let nsp = Nsp::from_parts(header, &body).expect("container is well-formed");
    assert_eq!(nsp.title_id().expect("ticket is present"), "0100ABCDEF123456");
}

#[test]
fn first_ticket_wins() {
    let (header, body) = build_container(&[
        b"zz",
        b"AAAABBBBCCCCDDDD.tik",
        b"EEEEFFFF00001111.tik",
    ]);
    let nsp = Nsp::from_parts(header, &body).expect("container is well-formed");
    assert_eq!(nsp.title_id().expect("ticket is present"), "AAAABBBBCCCCDDDD");
}

#[test]
fn missing_ticket() {
    let (header, body) = build_container(&[b"meta.cnmt.nca", b"content.nca"]);
    let nsp = Nsp::from_parts(header, &body).expect("container is well-formed");
    assert!(matches!(nsp.title_id(), Err(NspParsingError::NoTicket)));
}

#[test]
fn short_ticket_name_is_refused() {
    let (header, body) = build_container(&[b"short.tik"]);
    let nsp = Nsp::from_parts(header, &body).expect("container is well-formed");
    assert!(matches!(nsp.title_id(), Err(NspParsingError::NoTicket)));
}

#[test]
fn names_are_trimmed_of_nulls_and_spaces() {
    let (header, body) = build_container(&[b"AAAABBBBCCCCDDDD.tik\x00\x00  "]);
    let nsp = Nsp::from_parts(header, &body).expect("container is well-formed");
    assert_eq!(nsp.title_id().expect("ticket is present"), "AAAABBBBCCCCDDDD");
    assert_eq!(nsp.nsp_header.files.get(0).name, "AAAABBBBCCCCDDDD.tik");
}

#[test]
fn non_utf8_name_is_a_bad_string() {
    let (header, body) = build_container(&[b"ok.tik", b"\xFF\xFEbad"]);
    match Nsp::from_parts(header, &body) {
        Err(NspParsingError::BadString(bs)) => assert_eq!(bs, b"\xFF\xFEbad"),
        other => panic!("expected a bad string, got {:?}", other.map(|_| ())),
    }
}

#[test]
fn non_increasing_offsets_are_malformed() {
    // Two entries whose data offsets do not strictly increase.
    let mut body: Vec<u8> = Vec::new();
    for _ in 0..2 {
        body.extend_from_slice(&0x1000u64.to_le_bytes());
        body.extend_from_slice(&0x800u64.to_le_bytes());
        body.extend_from_slice(&0u32.to_le_bytes());
        body.extend_from_slice(&[0u8; 4]);
    }
    body.extend_from_slice(b"a.tik");
    let mut hb = Vec::new();
    hb.extend_from_slice(b"PFS0");
    hb.extend_from_slice(&2u32.to_le_bytes());
    hb.extend_from_slice(&5u32.to_le_bytes());
    hb.extend_from_slice(&[0u8; 4]);
    let header = PFS0Header::parse(&hb).unwrap();
    assert!(matches!(
        Nsp::from_parts(header, &body),
        Err(NspParsingError::MalformedHeader)
    ));
}

#[test]
fn wrong_body_length_is_malformed() {
    let (header, mut body) = build_container(&[b"AAAABBBBCCCCDDDD.tik"]);
    body.push(0);
    assert!(matches!(
        Nsp::from_parts(header, &body),
        Err(NspParsingError::MalformedHeader)
    ));
}

#[test]
fn string_table_offset_out_of_bounds_is_malformed() {
    let mut body: Vec<u8> = Vec::new();
    body.extend_from_slice(&0u64.to_le_bytes());
    body.extend_from_slice(&0x800u64.to_le_bytes());
    body.extend_from_slice(&99u32.to_le_bytes()); // past the 5-byte table
    body.extend_from_slice(&[0u8; 4]);
    body.extend_from_slice(b"a.tik");
    let mut hb = Vec::new();
    hb.extend_from_slice(b"PFS0");
    hb.extend_from_slice(&1u32.to_le_bytes());
    hb.extend_from_slice(&5u32.to_le_bytes());
    hb.extend_from_slice(&[0u8; 4]);
    let header = PFS0Header::parse(&hb).unwrap();
    assert!(matches!(
        Nsp::from_parts(header, &body),
        Err(NspParsingError::MalformedHeader)
    ));
}

#[test]
fn file_entries_carry_their_table_fields() {
    let (header, body) = build_container(&[b"AAAABBBBCCCCDDDD.tik", b"data.nca"]);
    let nsp = Nsp::from_parts(header, &body).expect("container is well-formed");
    let files = &nsp.nsp_header.files;
    assert_eq!(files.len(), 2);
    assert_eq!(files.get(0).file_header.offset, 0);
    assert_eq!(files.get(0).file_header.size, 0x800);
    assert_eq!(files.get(0).file_header.s_table_off, 0);
    assert_eq!(files.get(1).file_header.offset, 0x1000);
    assert_eq!(files.get(1).file_header.s_table_off, 20);
    assert!(files.find_extension(".nca").is_some());
    assert!(files.find_extension(".xci").is_none());
}
