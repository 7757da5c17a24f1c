use switch_usb_host::game::{Extractor, Game, GameInfo};
use switch_usb_host::listing::{check_archive_name, InsertOutcome, Listing, ListingError, ListingIndex};

fn game(id: &str, name: &str, size: u64, path: &str) -> Game {
    let ex = Extractor { title_id: id.to_string(), version: "0".to_string() };
    Game::new(GameInfo::new(ex, name.to_string(), size), path.to_string())
}

#[test]
fn archive_extensions() {
    assert!(check_archive_name("a.nsp").is_ok());
    assert!(check_archive_name("a.xci").is_ok());
    assert!(check_archive_name("a.nsz").is_ok());
    assert!(check_archive_name("b c [123].nsx").is_ok());
    assert!(matches!(check_archive_name("a.txt"), Err(ListingError::NotArchive)));
    assert!(matches!(check_archive_name("a.NSP"), Err(ListingError::NotArchive)));
    assert!(matches!(check_archive_name("archive.tar.nsp"), Ok(())));
    assert!(matches!(check_archive_name("noext"), Err(ListingError::BadName)));
    assert!(matches!(check_archive_name(".nsp"), Err(ListingError::BadName)));
    assert!(matches!(check_archive_name(""), Err(ListingError::BadName)));
}

#[test]
fn insert_and_lookup() {
    let mut l = Listing::new();
    let g = game("0100000000010000", "A.nsp", 10, "/g/A.nsp");
    assert_eq!(l.insert_game(g), InsertOutcome::Added);
    let by_id = l.get_game(ListingIndex::TitleId("0100000000010000")).expect("listed");
    assert_eq!(by_id.path().as_str(), "/g/A.nsp");
    let by_file = l.get_game(ListingIndex::FileName("/g/A.nsp")).expect("indexed");
    assert_eq!(by_file.info.id, "0100000000010000");
    assert!(l.get_game(ListingIndex::TitleId("0100000000019999")).is_none());
    assert!(l.get_game(ListingIndex::FileName("/nowhere")).is_none());
}

#[test]
fn reinserting_same_metadata_is_unchanged() {
    let mut l = Listing::new();
    l.insert_game(game("0100000000010000", "A.nsp", 10, "/g/A.nsp"));
    let again = game("0100000000010000", "A.nsp", 10, "/g/A.nsp");
    assert_eq!(l.insert_game(again), InsertOutcome::Unchanged);
    assert_eq!(l.id_map().len(), 1);
}

#[test]
fn changed_metadata_is_a_refresh() {
    let mut l = Listing::new();
    l.insert_game(game("0100000000010000", "A.nsp", 10, "/g/A.nsp"));
    let grown = game("0100000000010000", "A.nsp", 999, "/g/A.nsp");
    assert_eq!(l.insert_game(grown), InsertOutcome::Replaced);
    let g = l.get_game(ListingIndex::TitleId("0100000000010000")).unwrap();
    assert_eq!(g.size(), 999);
    assert_eq!(l.id_map().len(), 1);
}

#[test]
fn secondary_index_points_into_primary() {
    // The listing invariant: every value of the file map is a key of the
    // id map, so a file lookup always reaches a game.
    let mut l = Listing::new();
    l.insert_game(game("0100000000010000", "A.nsp", 10, "/g/A.nsp"));
    l.insert_game(game("0100000000020000", "B.nsp", 20, "/g/B.nsp"));
    // two paths can map to one id; the id key set does not grow
    l.insert_game(game("0100000000020000", "B2.nsp", 21, "/g/B2.nsp"));
    assert_eq!(l.file_map().len(), 3);
    assert_eq!(l.id_map().len(), 2);
    for i in 0..l.file_map().len() {
        let path = l.file_map().key_at(i).clone();
        assert!(l.get_game(ListingIndex::FileName(path.as_str())).is_some());
    }
}

#[test]
fn path_of_inserted_game_round_trips() {
    // At insertion time, id_map[file_map[p]].path == p.
    let mut l = Listing::new();
    l.insert_game(game("0100000000010000", "A.nsp", 10, "/g/A.nsp"));
    let id = l.file_map().get("/g/A.nsp").expect("indexed").clone();
    let g = l.get_game(ListingIndex::TitleId(id.as_str())).expect("listed");
    assert_eq!(g.path().as_str(), "/g/A.nsp");
}

#[test]
fn iteration_order_is_insertion_order() {
    let mut l = Listing::new();
    l.insert_game(game("0100000000010000", "A.nsp", 10, "/g/A.nsp"));
    l.insert_game(game("0100000000020000", "B.nsp", 20, "/g/B.nsp"));
    assert_eq!(l.id_map().key_at(0).as_str(), "0100000000010000");
    assert_eq!(l.id_map().key_at(1).as_str(), "0100000000020000");
    assert_eq!(l.file_map().key_at(0).as_str(), "/g/A.nsp");
    assert_eq!(l.file_map().key_at(1).as_str(), "/g/B.nsp");
    assert_eq!(l.id_map().val_at(0).info.name, "A.nsp");
}
