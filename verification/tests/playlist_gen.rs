use qobuz::builder;
use qobuz::engine;
use qobuz::models::{ArtistName, ArtistPage, ArtistRelease, Release as PageRelease, Track};
use qobuz::playlists::{self, Playlist};
use qobuz::release_type::ReleaseType;
use qobuz::releases;
use qobuz::report;
use qobuz::store::Store;
use qobuz::tracks;

/// Loads one artist and confirms one release carrying one track.
fn store_with_verified_track() -> Store {
    let mut store = Store::new();
    let page = ArtistPage {
        id: 13925362,
        name: ArtistName { display: "AVRALIZE".to_string() },
        releases: vec![ArtistRelease {
            release_type: ReleaseType::EpSingle,
            items: vec![PageRelease {
                id: "na99v5xa7s26a".to_string(),
                title: "helium".to_string(),
            }],
        }],
    };
    engine::load_artist(&mut store, &page);
    let cands = vec![qobuz::releases::Release {
        id: "na99v5xa7s26a".to_string(),
        title: "helium".to_string(),
        release_type: ReleaseType::EpSingle,
    }];
    let fetched = vec![vec![Track { id: 901, title: "helium".to_string() }]];
    engine::apply_track_results(&mut store, &cands, &fetched);
    store
}

#[test]
fn playlist_generated_then_window_closes() {
    let mut store = store_with_verified_track();
    // With a verified track and no prior playlist, a playlist is planned,
    // named after the current local date.
    let plan = builder::gen_playlist_plan(&store).expect("a playlist should be planned");
    let (name, track_ids) = plan;
    assert_eq!(name, chrono::Local::now().date_naive().to_string());
    assert_eq!(track_ids, vec![901]);
    assert_eq!(report::created_playlist_line(&name), format!("Created playlist: {name}"));
    // The caller creates the playlist remotely, then records it.
    playlists::insert(&mut store, &Playlist { id: 555, name });
    // Immediately afterwards nothing is eligible: no new tracks.
    assert!(builder::gen_playlist_plan(&store).is_none());
    assert_eq!(
        report::no_new_tracks_line(),
        "No new tracks. Skipping playlist creation"
    );
}

#[test]
fn no_tracks_means_no_playlist() {
    let store = Store::new();
    assert!(builder::gen_playlist_plan(&store).is_none());
}

#[test]
fn unverified_releases_feed_no_playlist() {
    let mut store = Store::new();
    // A release is stored and its track is known, but the release was
    // never verified: nothing is eligible.
    releases::insert_batch(
        &mut store,
        7,
        &vec![qobuz::releases::Release {
            id: "r1".to_string(),
            title: "one".to_string(),
            release_type: ReleaseType::Album,
        }],
    );
    tracks::insert_batch(
        &mut store,
        &"r1".to_string(),
        &vec![Track { id: 1, title: "t1".to_string() }],
    );
    assert_eq!(tracks::get_latest(&store), Vec::<u32>::new());
}

#[test]
fn old_tracks_never_reselected() {
    let mut store = store_with_verified_track();
    let (name, _) = builder::gen_playlist_plan(&store).unwrap();
    playlists::insert(&mut store, &Playlist { id: 555, name });
    // A release verified after the playlist brings its own track in,
    // but the track from before the playlist stays out.
    releases::insert_batch(
        &mut store,
        13925362,
        &vec![qobuz::releases::Release {
            id: "next".to_string(),
            title: "afterglow".to_string(),
            release_type: ReleaseType::Album,
        }],
    );
    tracks::insert_batch(
        &mut store,
        &"next".to_string(),
        &vec![Track { id: 902, title: "afterglow".to_string() }],
    );
    releases::bulk_verify(&mut store, &vec!["next".to_string()]);
    assert_eq!(tracks::get_latest(&store), vec![902]);
}
