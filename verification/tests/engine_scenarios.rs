use qobuz::artists;
use qobuz::engine;
use qobuz::models::{ArtistName, ArtistPage, ArtistRelease, Release as PageRelease, Track};
use qobuz::release_type::ReleaseType;
use qobuz::releases;
use qobuz::report;
use qobuz::store::Store;

fn entry(id: &str, title: &str) -> PageRelease {
    PageRelease { id: id.to_string(), title: title.to_string() }
}

/// The initial catalog snapshot of the artist: seven releases spread
/// across kind groups.
fn initial_page() -> ArtistPage {
    ArtistPage {
        id: 13925362,
        name: ArtistName { display: "AVRALIZE".to_string() },
        releases: vec![
            ArtistRelease {
                release_type: ReleaseType::Album,
                items: vec![entry("alb1", "fracture"), entry("alb2", "solace")],
            },
            ArtistRelease {
                release_type: ReleaseType::EpSingle,
                items: vec![entry("ep1", "glasshouse"), entry("ep2", "embers"), entry("ep3", "argon")],
            },
            ArtistRelease {
                release_type: ReleaseType::Live,
                items: vec![entry("live1", "live session")],
            },
            ArtistRelease {
                release_type: ReleaseType::Compilation,
                items: vec![entry("comp1", "early works")],
            },
        ],
    }
}

/// The later snapshot: the same seven releases plus one new single.
fn updated_page() -> ArtistPage {
    let mut page = initial_page();
    page.releases[1].items.push(entry("na99v5xa7s26a", "helium"));
    page
}

#[test]
fn load_artist_stores_full_catalog_unverified() {
    let mut store = Store::new();
    let n = engine::load_artist(&mut store, &initial_page());
    assert_eq!(n, 7);
    assert_eq!(store.artists.len(), 1);
    assert_eq!(store.artists[0].id, 13925362);
    assert_eq!(store.artists[0].name, "AVRALIZE");
    assert_eq!(store.releases.len(), 7);
    assert!(store.releases.iter().all(|r| !r.verified));
    assert_eq!(releases::get_all_ids_for_artist(&store, 13925362).len(), 7);
    assert_eq!(report::loading_line("AVRALIZE"), "Loading data for 'AVRALIZE'");
    assert_eq!(report::loaded_line(n), "Loaded 7 releases");
}

#[test]
fn load_artist_twice_changes_nothing() {
    let mut store = Store::new();
    engine::load_artist(&mut store, &initial_page());
    let releases_before: Vec<String> =
        store.releases.iter().map(|r| r.id.clone()).collect();
    let n = engine::load_artist(&mut store, &initial_page());
    assert_eq!(n, 7);
    assert_eq!(store.artists.len(), 1);
    assert_eq!(store.releases.len(), 7);
    let releases_after: Vec<String> = store.releases.iter().map(|r| r.id.clone()).collect();
    assert_eq!(releases_before, releases_after);
    assert_eq!(store.artist_releases.len(), 7);
}

#[test]
fn plan_sync_reports_remote_minus_known() {
    let mut store = Store::new();
    engine::load_artist(&mut store, &initial_page());
    let unchanged = engine::plan_sync(&store, 13925362, &initial_page());
    assert!(unchanged.is_empty());
    let cands = engine::plan_sync(&store, 13925362, &updated_page());
    assert_eq!(cands.len(), 1);
    assert_eq!(cands[0].id, "na99v5xa7s26a");
    assert_eq!(cands[0].title, "helium");
    assert_eq!(cands[0].release_type, ReleaseType::EpSingle);
}

#[test]
fn plan_sync_on_fresh_artist_keeps_first_occurrence_of_duplicates() {
    let store = Store::new();
    let page = ArtistPage {
        id: 1,
        name: ArtistName { display: "dup".to_string() },
        releases: vec![
            ArtistRelease {
                release_type: ReleaseType::Album,
                items: vec![entry("x", "first title")],
            },
            ArtistRelease {
                release_type: ReleaseType::Download,
                items: vec![entry("x", "second title"), entry("y", "other")],
            },
        ],
    };
    let cands = engine::plan_sync(&store, 1, &page);
    assert_eq!(cands.len(), 2);
    assert_eq!(cands[0].id, "x");
    assert_eq!(cands[0].title, "first title");
    assert_eq!(cands[0].release_type, ReleaseType::Album);
    assert_eq!(cands[1].id, "y");
}

#[test]
fn sync_confirms_release_with_tracks() {
    let mut store = Store::new();
    engine::load_artist(&mut store, &initial_page());
    let cands = engine::plan_sync(&store, 13925362, &updated_page());
    releases::insert_batch(&mut store, 13925362, &cands);
    let fetched = vec![vec![Track { id: 901, title: "helium".to_string() }]];
    let confirmed = engine::apply_track_results(&mut store, &cands, &fetched);
    assert_eq!(confirmed.len(), 1);
    assert_eq!(confirmed[0].title, "helium");
    let row = store.releases.iter().find(|r| r.id == "na99v5xa7s26a").unwrap();
    assert!(row.verified);
    assert_eq!(store.tracks.len(), 1);
    assert_eq!(store.tracks[0].id, 901);
    let name = artists::get_by_id(&store, 13925362).unwrap();
    let lines = report::artist_report_lines(&name, &confirmed);
    assert_eq!(lines.len(), 2);
    assert_eq!(lines[0], "Found 1 new release for AVRALIZE");
    assert_eq!(lines[1], "\t • helium");
}

#[test]
fn bogus_release_stays_stored_but_unverified_and_unreported() {
    let mut store = Store::new();
    engine::load_artist(&mut store, &initial_page());
    let cands = engine::plan_sync(&store, 13925362, &updated_page());
    releases::insert_batch(&mut store, 13925362, &cands);
    let fetched: Vec<Vec<Track>> = vec![Vec::new()];
    let confirmed = engine::apply_track_results(&mut store, &cands, &fetched);
    assert!(confirmed.is_empty());
    let row = store.releases.iter().find(|r| r.id == "na99v5xa7s26a").unwrap();
    assert!(!row.verified);
    assert!(store.tracks.is_empty());
    // The id is known now, so a later sync does not rediscover it.
    let later = engine::plan_sync(&store, 13925362, &updated_page());
    assert!(later.is_empty());
}

#[test]
fn sync_with_mixed_results_reports_only_confirmed() {
    let mut store = Store::new();
    let page = ArtistPage {
        id: 5,
        name: ArtistName { display: "Mixed".to_string() },
        releases: vec![ArtistRelease {
            release_type: ReleaseType::Album,
            items: vec![entry("real", "the real one"), entry("ghost", "the phantom")],
        }],
    };
    artists::insert(
        &mut store,
        &qobuz::artists::Artist { id: 5, name: "Mixed".to_string() },
    );
    let cands = engine::plan_sync(&store, 5, &page);
    assert_eq!(cands.len(), 2);
    releases::insert_batch(&mut store, 5, &cands);
    let fetched = vec![
        vec![Track { id: 11, title: "opener".to_string() }],
        Vec::new(),
    ];
    let confirmed = engine::apply_track_results(&mut store, &cands, &fetched);
    assert_eq!(confirmed.len(), 1);
    assert_eq!(confirmed[0].id, "real");
    assert!(store.releases.iter().find(|r| r.id == "real").unwrap().verified);
    assert!(!store.releases.iter().find(|r| r.id == "ghost").unwrap().verified);
}
