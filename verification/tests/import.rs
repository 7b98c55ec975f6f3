use mixxxkit::crates;
use mixxxkit::crates::ClearedSet;
use mixxxkit::crates::reconcile;
use mixxxkit::database::TargetDatabase;
use mixxxkit::import;
use mixxxkit::import::PathSource;
use mixxxkit::import::candidate_paths;
use mixxxkit::import::is_supported_audio_ext;
use mixxxkit::playlists;
use mixxxkit::playlists::prefixed_crate_name;
use mixxxkit::schema::Location;
use mixxxkit::schema::Track;
use mixxxkit::tracks::get_by_location;

fn seeded_target(paths: &[&str]) -> TargetDatabase {
    let mut db = TargetDatabase::new();
    let rows: Vec<Location> = paths
        .iter()
        .enumerate()
        .map(|(i, p)| Location {
            id: i as i32 + 100,
            location: Some((*p).to_owned()),
            directory: None,
        })
        .collect();
    let map = mixxxkit::locations::insert(&mut db, rows, None);
    let tracks: Vec<Track> = paths
        .iter()
        .enumerate()
        .map(|(i, p)| Track {
            id: i as i32 + 200,
            artist: None,
            title: Some((*p).to_owned()),
            location: Some(i as i32 + 100),
            cuepoint: None,
        })
        .collect();
    mixxxkit::tracks::insert(&mut db, tracks, &map);
    db
}

fn memberships_of(db: &TargetDatabase, crate_id: i32) -> Vec<(i32, i32)> {
    db.crate_tracks
        .iter()
        .filter(|ct| ct.crate_id == crate_id)
        .map(|ct| (ct.crate_id, ct.track_id))
        .collect()
}

#[test]
fn parses_map() {
    let text = "mappings:\n    fruit:\n        - apple\n        - tomato\n    vegetable:\n        - leek\n        - tomato\n";
    let map = playlists::parse_crate_map(text).unwrap();
    let vec = map.get("tomato").unwrap();
    assert!(["fruit", "vegetable"].into_iter().all(|subject| vec.contains(&subject.to_string())));
}

#[test]
fn import_parses_map() {
    let text = "mappings:\n    fruit:\n        - apple\n        - tomato\n    vegetable:\n        - leek\n        - tomato\n";
    let map = playlists::parse_crate_map(text).unwrap();
    let vec = map.get("tomato").unwrap();
    assert!(["fruit", "vegetable"].into_iter().all(|subject| vec.contains(&subject.to_string())));
}

#[test]
fn mod_parses_map() {
    let text = "prefix: \"[my] \"\nmappings:\n    fruit:\n        - apple\n        - tomato\n    vegetable:\n        - leek\n        - tomato\n";
    let map = import::parse_crate_map(text).unwrap();
    let vec = map.get("[my] fruit").unwrap();
    assert!(["apple", "tomato"].into_iter().all(|subject| vec.contains(&subject.to_string())));
}

#[test]
fn crate_map_without_mappings_is_rejected() {
    assert!(import::parse_crate_map("prefix: \"x\"\n").is_err());
    assert!(playlists::parse_crate_map("").is_err());
}

#[test]
fn crate_map_handles_crlf_and_blank_lines() {
    let text = "mappings:\r\n\r\n    fruit:\r\n        - apple\r\n";
    let map = import::parse_crate_map(text).unwrap();
    let vec = map.get("fruit").unwrap();
    assert_eq!(vec, vec!["apple".to_string()]);
}

#[test]
fn audio_extension_allow_list() {
    assert!(is_supported_audio_ext("/m/a.mp3"));
    assert!(is_supported_audio_ext("b.flac"));
    assert!(is_supported_audio_ext("c.aiff"));
    assert!(!is_supported_audio_ext("/m/a.txt"));
    assert!(!is_supported_audio_ext("/m/a.MP3"));
    assert!(!is_supported_audio_ext("/m/.mp3"));
    assert!(!is_supported_audio_ext("/m/noext"));
}

#[test]
fn directory_source_filters_and_resolves() {
    let source = PathSource::Directory {
        path: "/music".to_owned(),
        entries: vec![
            "/music/a.mp3".to_owned(),
            "/music/readme.txt".to_owned(),
            "b.wav".to_owned(),
        ],
    };
    let candidates = candidate_paths(&source, "/music");
    assert_eq!(candidates, vec!["/music/a.mp3".to_owned(), "/music/b.wav".to_owned()]);
}

#[test]
fn playlist_source_resolves_against_its_directory() {
    let source = PathSource::Playlist {
        path: "/pl/mix.m3u8".to_owned(),
        lines: vec!["track1.mp3".to_owned(), "/abs/track2.mp3".to_owned()],
    };
    let candidates = candidate_paths(&source, "/ignored");
    assert_eq!(candidates, vec!["/pl/track1.mp3".to_owned(), "/abs/track2.mp3".to_owned()]);
}

#[test]
fn reconcile_connects_playlist_tracks() {
    // the end-to-end playlist scenario: one line, resolved against the
    // playlist's directory, reaching one existing track
    let mut db = seeded_target(&["/pl/track1.mp3"]);
    let source = PathSource::Playlist {
        path: "/pl/mix.m3u8".to_owned(),
        lines: vec!["track1.mp3".to_owned()],
    };
    let candidates = candidate_paths(&source, "/ignored");
    let mut cleared = ClearedSet::new();
    reconcile(&mut db, "Party", &candidates, &mut cleared);
    let crate_id = db.crates.iter().find(|c| c.name == "Party").unwrap().id;
    let track = get_by_location(&db, "/pl/track1.mp3").unwrap();
    assert_eq!(memberships_of(&db, crate_id), vec![(crate_id, track.id)]);

    // re-running with an empty playlist clears everything and adds
    // nothing back
    let mut cleared = ClearedSet::new();
    reconcile(&mut db, "Party", &Vec::new(), &mut cleared);
    assert_eq!(memberships_of(&db, crate_id), Vec::new());
}

#[test]
fn reconcile_twice_is_idempotent() {
    let mut db = seeded_target(&["/m/a.mp3", "/m/b.mp3"]);
    let paths = vec!["/m/a.mp3".to_owned(), "/m/b.mp3".to_owned(), "/m/a.mp3".to_owned()];
    let mut cleared = ClearedSet::new();
    reconcile(&mut db, "Set", &paths, &mut cleared);
    let crate_id = db.crates.iter().find(|c| c.name == "Set").unwrap().id;
    let first = memberships_of(&db, crate_id);
    assert_eq!(first.len(), 2); // the repeated path connects only once

    let mut cleared = ClearedSet::new();
    reconcile(&mut db, "Set", &paths, &mut cleared);
    let second = memberships_of(&db, crate_id);
    assert_eq!(first, second);
    assert_eq!(db.crates.len(), 1);
}

#[test]
fn reconcile_removes_stale_memberships() {
    let mut db = seeded_target(&["/m/a.mp3", "/m/b.mp3"]);
    let mut cleared = ClearedSet::new();
    reconcile(
        &mut db,
        "C",
        &vec!["/m/a.mp3".to_owned(), "/m/b.mp3".to_owned()],
        &mut cleared,
    );
    let crate_id = db.crates.iter().find(|c| c.name == "C").unwrap().id;
    let track_a = get_by_location(&db, "/m/a.mp3").unwrap().id;
    let track_b = get_by_location(&db, "/m/b.mp3").unwrap().id;
    assert_eq!(memberships_of(&db, crate_id), vec![(crate_id, track_a), (crate_id, track_b)]);

    // a source list that no longer names b removes b's membership
    let mut cleared = ClearedSet::new();
    reconcile(&mut db, "C", &vec!["/m/a.mp3".to_owned()], &mut cleared);
    assert_eq!(memberships_of(&db, crate_id), vec![(crate_id, track_a)]);
}

#[test]
fn reconcile_clears_each_crate_once_per_run() {
    let mut db = seeded_target(&["/m/a.mp3", "/m/b.mp3"]);
    let mut cleared = ClearedSet::new();
    // two sources of one run feeding the same crate: the second must
    // not wipe what the first connected
    reconcile(&mut db, "C", &vec!["/m/a.mp3".to_owned()], &mut cleared);
    reconcile(&mut db, "C", &vec!["/m/b.mp3".to_owned()], &mut cleared);
    let crate_id = db.crates.iter().find(|c| c.name == "C").unwrap().id;
    assert_eq!(memberships_of(&db, crate_id).len(), 2);
}

#[test]
fn connect_track_ignores_duplicates() {
    let mut db = seeded_target(&["/m/a.mp3"]);
    let crate_id = crates::get_by_name_or_create(&mut db, "C").unwrap();
    let track_id = get_by_location(&db, "/m/a.mp3").unwrap().id;
    assert!(crates::connect_track(&mut db, crate_id, track_id));
    assert!(!crates::connect_track(&mut db, crate_id, track_id));
    assert_eq!(db.crate_tracks.len(), 1);
}

#[test]
fn get_by_name_or_create_reuses_existing_crates() {
    let mut db = TargetDatabase::new();
    let first = crates::get_by_name_or_create(&mut db, "Party").unwrap();
    let second = crates::get_by_name_or_create(&mut db, "Party").unwrap();
    let other = crates::get_by_name_or_create(&mut db, "party").unwrap();
    assert_eq!(first, second);
    assert_ne!(first, other); // names match case-sensitively
    assert_eq!(db.crates.len(), 2);
    let found = crates::get_by_id(&db, first).unwrap();
    assert_eq!(found.name, "Party");
}

#[test]
fn connect_track_by_location_reports_misses() {
    let mut db = seeded_target(&["/m/a.mp3"]);
    let crate_id = crates::get_by_name_or_create(&mut db, "C").unwrap();
    assert!(crates::connect_track_by_location(&mut db, crate_id, "/m/a.mp3").is_some());
    assert!(crates::connect_track_by_location(&mut db, crate_id, "/m/missing.mp3").is_none());
    assert_eq!(db.crate_tracks.len(), 1);
}

#[test]
fn prefixed_crate_names() {
    assert_eq!(prefixed_crate_name("mix"), "[MixxxKit] mix");
}

#[test]
fn crate_names_fall_back_to_the_stem() {
    let text = "mappings:\n    fruit:\n        - apple\n";
    let map = playlists::parse_crate_map(text).unwrap();
    assert_eq!(playlists::crate_names_for(&map, "apple"), vec!["fruit".to_string()]);
    assert_eq!(playlists::crate_names_for(&map, "pear"), vec!["pear".to_string()]);
}
