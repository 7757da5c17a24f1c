use switch_usb_host::game::{Extractor, Game, GameError, GameInfo};

#[test]
fn filename_extraction() {
    let ex = Extractor::from_name(
        "Zelda [0100000000010000][v0].nsp",
        "/games/Zelda [0100000000010000][v0].nsp",
    )
    .expect("name carries a title id");
    assert_eq!(ex.title_id, "0100000000010000");
    assert_eq!(ex.version, "0");
}

#[test]
fn version_defaults_to_zero() {
    let ex = Extractor::from_name("Game [0123456789ABCDEF].xci", "p").unwrap();
    assert_eq!(ex.title_id, "0123456789ABCDEF");
    assert_eq!(ex.version, "0");
}

#[test]
fn version_prefix_is_stripped() {
    let ex = Extractor::from_name("Game [v131072][010203040506].nsp", "p").unwrap();
    assert_eq!(ex.version, "131072");
    assert_eq!(ex.title_id, "010203040506");
}

#[test]
fn version_token_is_not_a_title() {
    // `v12345` is 6 characters long but names a version, so it cannot be
    // the title ID.
    let err = Extractor::from_name("Game [v12345].nsp", "somewhere").unwrap_err();
    match err {
        GameError::BadNameFormat(p) => assert_eq!(p, "somewhere"),
        other => panic!("expected a bad name format, got {other:?}"),
    }
}

#[test]
fn token_length_bounds() {
    // 5 characters: too short; 17: too long; 6 and 16: accepted.
    assert!(Extractor::from_name("G [12345].nsp", "p").is_err());
    assert!(Extractor::from_name("G [12345678901234567].nsp", "p").is_err());
    assert_eq!(Extractor::from_name("G [123456].nsp", "p").unwrap().title_id, "123456");
    assert_eq!(
        Extractor::from_name("G [1234567890123456].nsp", "p").unwrap().title_id,
        "1234567890123456"
    );
}

#[test]
fn later_bracket_restarts_a_token() {
    // An opening bracket inside a token restarts it, as the scan keeps
    // only the innermost start.
    let ex = Extractor::from_name("G [junk[0100000000010000]].nsp", "p").unwrap();
    assert_eq!(ex.title_id, "0100000000010000");
}

#[test]
fn no_brackets_is_a_bad_name() {
    assert!(matches!(
        Extractor::from_name("plain.nsp", "p"),
        Err(GameError::BadNameFormat(_))
    ));
}

#[test]
fn game_info_assembly() {
    let ex = Extractor::from_name("Zelda [0100000000010000][v3].nsp", "p").unwrap();
    let info = GameInfo::new(ex, "Zelda [0100000000010000][v3].nsp".to_string(), 4096);
    assert_eq!(info.title_id(), "0100000000010000");
    assert_eq!(info.size(), 4096);
    assert_eq!(info.version, "3");
    assert_eq!(info.name, "Zelda [0100000000010000][v3].nsp");
}

#[test]
fn game_equality_is_by_metadata() {
    let mk = |path: &str| {
        let ex = Extractor {
            title_id: "0100000000010000".to_string(),
            version: "0".to_string(),
        };
        Game::new(GameInfo::new(ex, "A.nsp".to_string(), 10), path.to_string())
    };
    let a = mk("/x/A.nsp");
    let b = mk("/y/A.nsp");
    assert!(a == b, "paths do not take part in game equality");
}
