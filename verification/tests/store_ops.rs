use qobuz::artists::{self, Artist};
use qobuz::models::Track;
use qobuz::playlists::{self, Playlist};
use qobuz::release_type::ReleaseType;
use qobuz::releases::{self, Release};
use qobuz::store::Store;
use qobuz::tracks;

fn release(id: &str, title: &str) -> Release {
    Release { id: id.to_string(), title: title.to_string(), release_type: ReleaseType::Album }
}

#[test]
fn artist_insert_is_keyed_on_id() {
    let mut store = Store::new();
    artists::insert(&mut store, &Artist { id: 7, name: "First".to_string() });
    artists::insert(&mut store, &Artist { id: 7, name: "Renamed".to_string() });
    artists::insert(&mut store, &Artist { id: 8, name: "Second".to_string() });
    assert_eq!(store.artists.len(), 2);
    // The existing row wins: a rename after first sight is invisible.
    assert_eq!(artists::get_by_id(&store, 7), Some("First".to_string()));
    assert_eq!(artists::get_by_id(&store, 8), Some("Second".to_string()));
    assert_eq!(artists::get_by_id(&store, 9), None);
}

#[test]
fn artist_lookup_by_name_folds_case_and_trims() {
    let mut store = Store::new();
    artists::insert(&mut store, &Artist { id: 7, name: "AVRALIZE".to_string() });
    assert_eq!(artists::get_id_by_name(&store, "avralize"), Some(7));
    assert_eq!(artists::get_id_by_name(&store, "  AVRALIZE  "), Some(7));
    assert_eq!(artists::get_id_by_name(&store, "someone else"), None);
}

#[test]
fn release_insert_batch_ignores_duplicates() {
    let mut store = Store::new();
    let batch = vec![release("r1", "one"), release("r2", "two")];
    releases::insert_batch(&mut store, 7, &batch);
    let again = vec![release("r1", "renamed"), release("r3", "three")];
    releases::insert_batch(&mut store, 7, &again);
    assert_eq!(store.releases.len(), 3);
    // The first-seen title wins for a re-inserted id.
    assert_eq!(store.releases[0].id, "r1");
    assert_eq!(store.releases[0].title, "one");
    assert!(store.releases.iter().all(|r| !r.verified));
    let ids = releases::get_all_ids_for_artist(&store, 7);
    assert_eq!(ids, vec!["r1".to_string(), "r2".to_string(), "r3".to_string()]);
    assert!(releases::get_all_ids_for_artist(&store, 8).is_empty());
}

#[test]
fn release_association_is_per_artist() {
    let mut store = Store::new();
    let batch = vec![release("shared", "both artists")];
    releases::insert_batch(&mut store, 1, &batch);
    releases::insert_batch(&mut store, 2, &batch);
    assert_eq!(store.releases.len(), 1);
    assert_eq!(releases::get_all_ids_for_artist(&store, 1), vec!["shared".to_string()]);
    assert_eq!(releases::get_all_ids_for_artist(&store, 2), vec!["shared".to_string()]);
}

#[test]
fn bulk_verify_marks_only_listed_releases() {
    let mut store = Store::new();
    let batch = vec![release("r1", "one"), release("r2", "two")];
    releases::insert_batch(&mut store, 7, &batch);
    let listing = vec![Track { id: 1, title: "t1".to_string() }];
    tracks::insert_batch(&mut store, &"r1".to_string(), &listing);
    releases::bulk_verify(&mut store, &vec!["r1".to_string(), "missing".to_string()]);
    assert!(store.releases[0].verified);
    assert!(!store.releases[1].verified);
}

#[test]
fn track_insert_batch_ignores_duplicates() {
    let mut store = Store::new();
    releases::insert_batch(&mut store, 7, &vec![release("r1", "one")]);
    let listing = vec![
        Track { id: 1, title: "t1".to_string() },
        Track { id: 2, title: "t2".to_string() },
    ];
    tracks::insert_batch(&mut store, &"r1".to_string(), &listing);
    tracks::insert_batch(&mut store, &"r1".to_string(), &listing);
    assert_eq!(store.tracks.len(), 2);
    assert_eq!(store.track_releases.len(), 2);
}

#[test]
fn playlist_insert_is_keyed_on_id() {
    let mut store = Store::new();
    playlists::insert(&mut store, &Playlist { id: 1, name: "2024-01-01".to_string() });
    playlists::insert(&mut store, &Playlist { id: 1, name: "2024-02-02".to_string() });
    playlists::insert(&mut store, &Playlist { id: 2, name: "2024-03-03".to_string() });
    assert_eq!(store.playlists.len(), 2);
    assert_eq!(store.playlists[0].name, "2024-01-01");
    assert!(store.playlists[0].created_at < store.playlists[1].created_at);
}
