use mixxxkit::cuepoint::decode_cuepoint;
use mixxxkit::database::TargetDatabase;
use mixxxkit::database::get_mixxx_database_path;
use mixxxkit::database::get_mixxx_directory;
use mixxxkit::directories;
use mixxxkit::locations;
use mixxxkit::locations::transform_location;
use mixxxkit::merge::choose_output_path;
use mixxxkit::merge::merge_libraries;
use mixxxkit::remap::IdMap;
use mixxxkit::remap::RemapTable;
use mixxxkit::schema::Directory;
use mixxxkit::schema::Location;
use mixxxkit::schema::Track;
use mixxxkit::tracks;
use mixxxkit::util::str_coalesce;

fn location(id: i32, path: &str, dir: &str) -> Location {
    Location { id, location: Some(path.to_owned()), directory: Some(dir.to_owned()) }
}

fn track(id: i32, artist: &str, title: &str, loc: Option<i32>) -> Track {
    Track {
        id,
        artist: Some(artist.to_owned()),
        title: Some(title.to_owned()),
        location: loc,
        cuepoint: None,
    }
}

#[test]
fn substitute_replaces_first_matching_prefix() {
    let mut table = RemapTable::new();
    table.insert("/old/music".to_owned(), "/new/music".to_owned());
    assert_eq!(table.substitute("/old/music/a.mp3"), "/new/music/a.mp3");
}

#[test]
fn substitute_without_matching_prefix_is_identity() {
    let mut table = RemapTable::new();
    table.insert("/old/music".to_owned(), "/new/music".to_owned());
    assert_eq!(table.substitute("/elsewhere/a.mp3"), "/elsewhere/a.mp3");
    let empty = RemapTable::new();
    assert_eq!(empty.substitute("/old/music/a.mp3"), "/old/music/a.mp3");
}

#[test]
fn remap_table_build_skips_empty_replacements() {
    let dirs = vec![
        Directory { directory: "/keep".to_owned() },
        Directory { directory: "/move".to_owned() },
    ];
    let replacements = vec!["   ".to_owned(), " \"D:\\Music\" ".to_owned()];
    let table = RemapTable::build(&dirs, &replacements);
    assert_eq!(table.substitute("/keep/a.mp3"), "/keep/a.mp3");
    assert_eq!(table.substitute("/move/a.mp3"), "D:/Music/a.mp3");
}

#[test]
fn transform_location_substitutes_both_columns() {
    let mut table = RemapTable::new();
    table.insert("/old".to_owned(), "/new".to_owned());
    let loc = location(7, "/old/a.mp3", "/old");
    let out = transform_location(loc, &table);
    assert_eq!(out.id, 7);
    assert_eq!(out.location.as_deref(), Some("/new/a.mp3"));
    assert_eq!(out.directory.as_deref(), Some("/new"));
}

#[test]
fn location_copy_records_one_entry_per_inserted_row() {
    let mut db = TargetDatabase::new();
    let rows = vec![
        location(10, "/m/a.mp3", "/m"),
        location(11, "/m/b.mp3", "/m"),
        location(12, "/m/a.mp3", "/m"), // duplicate path: skipped
    ];
    let map = locations::insert(&mut db, rows, None);
    assert_eq!(db.locations.len(), 2);
    assert_eq!(map.len(), 2);
    assert_eq!(map.get(10), Some(1));
    assert_eq!(map.get(11), Some(2));
    assert_eq!(map.get(12), None);
    // the assigned ids are pairwise distinct
    assert_ne!(db.locations[0].id, db.locations[1].id);
}

#[test]
fn track_copy_skips_orphans_and_unmapped_rows() {
    let mut db = TargetDatabase::new();
    let map = locations::insert(&mut db, vec![location(10, "/m/a.mp3", "/m")], None);
    let rows = vec![
        track(1, "A", "kept", Some(10)),
        track(2, "B", "orphan", None),
        track(3, "C", "unmapped", Some(99)),
    ];
    tracks::insert(&mut db, rows, &map);
    assert_eq!(db.tracks.len(), 1);
    assert_eq!(db.tracks[0].title.as_deref(), Some("kept"));
    assert_eq!(db.tracks[0].location, Some(1));
}

#[test]
fn track_copy_of_only_unmappable_rows_adds_nothing() {
    let mut db = TargetDatabase::new();
    let map = IdMap::new();
    tracks::insert(&mut db, vec![track(1, "A", "x", Some(5)), track(2, "B", "y", None)], &map);
    assert_eq!(db.tracks.len(), 0);
}

#[test]
fn directories_insert_applies_exact_matches_and_skips_duplicates() {
    let mut db = TargetDatabase::new();
    let mut table = RemapTable::new();
    table.insert("/old/music".to_owned(), "/new/music".to_owned());
    let dirs = vec![
        Directory { directory: "/old/music".to_owned() },
        Directory { directory: "/other".to_owned() },
        Directory { directory: "/old/music".to_owned() },
    ];
    directories::insert(&mut db, &dirs, Some(&table));
    let paths: Vec<&str> = db.directories.iter().map(|d| d.directory.as_str()).collect();
    assert_eq!(paths, vec!["/new/music", "/other"]);
}

#[test]
fn merge_end_to_end_remaps_paths_and_location_ids() {
    let mut db = TargetDatabase::new();
    let mut table = RemapTable::new();
    table.insert("/old/music".to_owned(), "/new/music".to_owned());
    let dirs = vec![Directory { directory: "/old/music".to_owned() }];
    let locs = vec![location(1, "/old/music/a.mp3", "/old/music")];
    let trks = vec![track(1, "A", "T", Some(1))];
    merge_libraries(&mut db, &dirs, locs, trks, Some(&table));
    assert_eq!(db.locations.len(), 1);
    assert_eq!(db.locations[0].location.as_deref(), Some("/new/music/a.mp3"));
    assert_eq!(db.tracks.len(), 1);
    assert_eq!(db.tracks[0].location, Some(db.locations[0].id));
    assert_eq!(db.tracks[0].artist.as_deref(), Some("A"));
    assert_eq!(db.tracks[0].title.as_deref(), Some("T"));
}

#[test]
fn cuepoint_accepts_integer_and_decimal_forms() {
    assert_eq!(decode_cuepoint("123"), Some(123));
    assert_eq!(decode_cuepoint("123.75"), Some(123));
    assert_eq!(decode_cuepoint("-3.5"), Some(-3));
    assert_eq!(decode_cuepoint("0"), Some(0));
    assert_eq!(decode_cuepoint("42."), Some(42));
}

#[test]
fn cuepoint_rejects_non_numeric_forms() {
    assert_eq!(decode_cuepoint(""), None);
    assert_eq!(decode_cuepoint("-"), None);
    assert_eq!(decode_cuepoint("abc"), None);
    assert_eq!(decode_cuepoint("12a"), None);
    assert_eq!(decode_cuepoint(".5"), None);
    assert_eq!(decode_cuepoint("1.2.3"), None);
    assert_eq!(decode_cuepoint("99999999999999999999999"), None);
}

#[test]
fn output_path_decision() {
    let (path, copy) = choose_output_path(
        &Some("/t.sqlite".to_owned()),
        &Some("/o.sqlite".to_owned()),
        "/fallback".to_owned(),
    );
    assert_eq!(path, "/o.sqlite");
    assert!(copy);
    let (path, copy) = choose_output_path(
        &Some("/t.sqlite".to_owned()),
        &Some("/t.sqlite".to_owned()),
        "/fallback".to_owned(),
    );
    assert_eq!(path, "/t.sqlite");
    assert!(!copy);
    let (path, copy) = choose_output_path(&Some("/t.sqlite".to_owned()), &None, "/fb".to_owned());
    assert_eq!(path, "/t.sqlite");
    assert!(!copy);
    let (path, copy) = choose_output_path(&None, &None, "/fb".to_owned());
    assert_eq!(path, "/fb");
    assert!(!copy);
}

#[test]
fn installation_paths() {
    assert_eq!(get_mixxx_directory(), "~/.mixxx/");
    assert_eq!(get_mixxx_database_path(), "~/.mixxx/mixxxdb.sqlite");
}

#[test]
fn str_coalesce_prefers_the_value() {
    let v = Some("found".to_owned());
    assert_eq!(str_coalesce(&v, "<N/A>"), "found");
    assert_eq!(str_coalesce(&None, "<N/A>"), "<N/A>");
}

#[test]
fn cuepoint_integer_fit_boundary() {
    assert_eq!(decode_cuepoint("9223372036854775807"), Some(i64::MAX));
    assert_eq!(decode_cuepoint("9223372036854775808"), None);
    assert_eq!(decode_cuepoint("-9223372036854775807"), Some(-i64::MAX));
}

#[test]
fn id_map_lookup_is_first_match() {
    let mut map = IdMap::new();
    map.insert(5, 50);
    map.insert(5, 60);
    assert_eq!(map.get(5), Some(50));
    assert_eq!(map.get(6), None);
    assert_eq!(map.len(), 2);
}
