use bitdemon_services::server::groups::DwGroupService;
use bitdemon_services::server::locale::{delocalise, has_parent_component};
use bitdemon_services::server::publisher_file::{
    DirectoryEntry, DwPublisherStorageService, FileVisibility, ListingCursor, StorageServiceError,
};
use bitdemon_services::server::routing::{route, Destination};
use bitdemon_services::session::{BdSession, SessionAuthentication, Title};
use bitdemon_services::wire::{BdMessage, BdReader};

fn session(id: u64) -> BdSession {
    BdSession::new(id, None)
}

fn player(title: u32) -> BdSession {
    let mut session = session(1);
    session.set_authentication(SessionAuthentication {
        user_id: 1,
        username: "player".to_string(),
        session_key: [0; 24],
        title: Title { id: title },
    });
    session
}

#[test]
fn groups_are_counted() {
    let mut service = DwGroupService::new();
    service.set_groups(&session(1), &[7, 8]);
    service.set_groups(&session(2), &[8, 9]);
    assert_eq!(service.get_group_counts(&session(1), &[7, 8, 9, 10]), vec![1, 2, 1, 0]);
    assert_eq!(service.get_group_counts(&session(1), &[]), Vec::<u64>::new());
    // Sending the same groups again changes nothing.
    service.set_groups(&session(1), &[7, 8]);
    assert_eq!(service.get_group_counts(&session(1), &[7, 8, 9]), vec![1, 2, 1]);
    service.set_groups(&session(1), &[8, 9]);
    assert_eq!(service.get_group_counts(&session(1), &[7, 8, 9]), vec![0, 2, 2]);
    service.remove_all_groups_for_session(2);
    assert_eq!(service.get_group_counts(&session(1), &[7, 8, 9]), vec![0, 1, 1]);
    service.remove_all_groups_for_session(2);
    service.remove_all_groups_for_session(1);
    assert_eq!(service.get_group_counts(&session(1), &[7, 8, 9]), vec![0, 0, 0]);
}

#[test]
fn groups_that_stand_twice() {
    let mut service = DwGroupService::new();
    service.set_groups(&session(1), &[7, 7]);
    service.set_groups(&session(2), &[7]);
    assert_eq!(service.get_group_counts(&session(1), &[7, 7]), vec![2, 2]);
    // A list that names a group twice takes two away when its session leaves.
    service.remove_all_groups_for_session(1);
    assert_eq!(service.get_group_counts(&session(1), &[7]), vec![0]);
    service.remove_all_groups_for_session(2);
    assert_eq!(service.get_group_counts(&session(1), &[7]), vec![0]);
}

#[test]
fn names_in_english() {
    let english = |name: &str| delocalise(name);
    assert_eq!(english("online_tu9_mp_french.wad").as_deref(), Some("online_tu9_mp_english.wad"));
    assert_eq!(english("fr_ffotd_tu9_mp_148.ff.00").as_deref(), Some("en_ffotd_tu9_mp_148.ff.00"));
    assert_eq!(english("ko_x").as_deref(), Some("en_x"));
    assert_eq!(english("a_korean_b_korean").as_deref(), Some("a_english_b_english"));
    // The first language of the list counts, wherever it stands.
    assert_eq!(english("x_german_french").as_deref(), Some("x_german_english"));
    // A mark comes before an abbreviation.
    assert_eq!(english("fr_a_dutch").as_deref(), Some("fr_a_english"));
    assert_eq!(english("online_tu9_mp_english.wad"), None);
    assert_eq!(english("xfr_a"), None);
    assert_eq!(english(""), None);
}

#[test]
fn names_that_climb() {
    for name in ["..", "../x", "a/..", "a/../b", "/.."] {
        assert!(has_parent_component(name), "{name}");
    }
    for name in ["", ".", "...", "a..b", "..a", "a..", "a/b", "a/.b", "x/..y"] {
        assert!(!has_parent_component(name), "{name}");
    }
}

#[test]
fn where_files_are() {
    let service = DwPublisherStorageService::new();
    let paths = service.get_publisher_file_data(&player(5710), "fr_a.ff").unwrap();
    assert_eq!(paths.path, "storage/publisher/5710/fr_a.ff");
    assert_eq!(paths.alternative.as_deref(), Some("storage/publisher/5710/en_a.ff"));
    let paths = service.get_publisher_file_data(&player(0), "a.ff").unwrap();
    assert_eq!(paths.path, "storage/publisher/0/a.ff");
    assert_eq!(paths.alternative, None);
    let r = service.get_publisher_file_data(&player(5710), "../a");
    assert!(matches!(r, Err(StorageServiceError::StorageFileNotFoundError)));
    assert_eq!(DwPublisherStorageService::directory(Title { id: 12 }), "storage/publisher/12");
}

#[test]
fn what_is_served() {
    let service = DwPublisherStorageService::new();
    assert_eq!(service.choose_file_data(Some(vec![1]), Some(vec![2])), Ok(vec![1]));
    assert_eq!(service.choose_file_data(None, Some(vec![2])), Ok(vec![2]));
    assert_eq!(
        service.choose_file_data(None, None),
        Err(StorageServiceError::StorageFileNotFoundError)
    );
}

fn directory() -> Option<Vec<DirectoryEntry>> {
    let entry = |name: &str, created: i64| DirectoryEntry {
        filename: name.to_string(),
        file_size: 10,
        created,
        modified: created + 1,
    };
    Some(vec![
        entry("online_tu9_mp_english.wad", 100),
        entry("en_ffotd.ff", 200),
        entry("heatmap", 50),
        entry("online_tu9_zm_english.wad", 300),
    ])
}

fn names(
    listing: Result<
        bitdemon_services::server::publisher_file::ResultSlice<
            bitdemon_services::server::publisher_file::StorageFileInfo,
        >,
        StorageServiceError,
    >,
) -> Vec<String> {
    listing.unwrap().items.into_iter().map(|i| i.filename).collect()
}

#[test]
fn files_are_listed() {
    let service = DwPublisherStorageService::new();
    let player = player(5710);
    let slice = service.list_publisher_files(&player, 0, 0, 1, directory()).unwrap();
    assert_eq!(slice.offset, 0);
    assert_eq!(slice.items.len(), 1);
    let info = &slice.items[0];
    assert_eq!((info.id, info.owner_id, info.file_size), (0, 0, 10));
    assert_eq!((info.created, info.modified), (100, 101));
    assert_eq!(info.title.id, 5710);
    assert_eq!(info.visibility, FileVisibility::VisiblePublic);
    assert_eq!(info.filename, "online_tu9_mp_english.wad");

    let list = |min, offset, count| service.list_publisher_files(&player, min, offset, count, directory());
    assert_eq!(names(list(0, 2, 9)), vec!["heatmap", "online_tu9_zm_english.wad"]);
    assert_eq!(names(list(100, 0, 2)), vec!["online_tu9_mp_english.wad", "en_ffotd.ff"]);
    assert_eq!(names(list(101, 1, 9)), vec!["en_ffotd.ff", "online_tu9_zm_english.wad"]);
    assert_eq!(list(0, 3, 9).unwrap().offset, 3);
    for (min, offset, count) in [(301, 0, 9), (0, 4, 9), (0, 99, 9), (0, 0, 0)] {
        assert!(matches!(
            list(min, offset, count),
            Err(StorageServiceError::StorageFileNotFoundError)
        ));
    }
    // A directory that cannot be read is an empty list, and no error.
    let slice = service.list_publisher_files(&player, 0, 5, 9, None).unwrap();
    assert_eq!((slice.items.len(), slice.offset), (0, 5));
}

#[test]
fn a_walk_makes_the_listing() {
    let walk = |offset, count| {
        let mut cursor = ListingCursor::new(Title { id: 5710 }, 100, offset, count);
        let mut examined = 0;
        for entry in directory().unwrap() {
            if cursor.is_full() {
                break;
            }
            if !cursor.pass() {
                examined += 1;
                cursor.examine(&entry);
            }
        }
        (examined, cursor.finish(offset))
    };
    let (examined, listing) = walk(1, 1);
    assert_eq!(examined, 1);
    assert_eq!(names(listing), vec!["en_ffotd.ff"]);
    let (examined, listing) = walk(1, 9);
    assert_eq!(examined, 3);
    assert_eq!(names(listing), vec!["en_ffotd.ff", "online_tu9_zm_english.wad"]);
    let (examined, listing) = walk(0, 0);
    assert_eq!(examined, 0);
    assert!(matches!(listing, Err(StorageServiceError::StorageFileNotFoundError)));
    assert!(DwPublisherStorageService::is_wanted("en_a", "fr_a"));
    assert!(!DwPublisherStorageService::is_wanted("en_a", "de_b"));
}

#[test]
fn files_are_searched() {
    let service = DwPublisherStorageService::new();
    let player = player(5710);
    let search = |wanted: &str, offset| {
        service.filter_publisher_files(&player, 0, offset, 9, wanted, directory())
    };
    assert_eq!(names(search("online", 0)).len(), 2);
    assert_eq!(names(search("online", 1)), vec!["online_tu9_zm_english.wad"]);
    assert_eq!(names(search("online_tu9_mp_french.wad", 0)), vec!["online_tu9_mp_english.wad"]);
    assert_eq!(names(search("fr_ffotd.ff", 0)), vec!["en_ffotd.ff"]);
    assert_eq!(names(search("", 0)).len(), 4);
    assert!(matches!(search("xyz", 0), Err(StorageServiceError::StorageFileNotFoundError)));
    let slice = service.filter_publisher_files(&player, 0, 5, 9, "x", None).unwrap();
    assert_eq!((slice.items.len(), slice.offset), (0, 5));
}

#[test]
fn messages_are_routed() {
    let message = |raw: Vec<u8>| BdMessage { reader: BdReader::new(raw, Vec::new()) };
    for kind in [0x26, 0x24, 0x28, 0x0A, 0x10, 0x00] {
        assert_eq!(route(&session(1), &message(vec![kind, 9])), Destination::Auth);
        assert_eq!(route(&player(1), &message(vec![kind, 9])), Destination::Lobby);
    }
    assert_eq!(route(&session(1), &message(Vec::new())), Destination::Auth);
    for kind in [0x01, 0x25, 0x27, 0xFF] {
        assert_eq!(route(&session(1), &message(vec![kind])), Destination::Lobby);
    }
}
