use qobuz::artists::{self, Artist};
use qobuz::report;
use qobuz::store::Store;

#[test]
fn decimal_rendering_is_exact() {
    assert_eq!(report::dec_str(0), "0");
    assert_eq!(report::dec_str(7), "7");
    assert_eq!(report::dec_str(10), "10");
    assert_eq!(report::dec_str(205), "205");
    assert_eq!(report::dec_str(13925362), "13925362");
}

#[test]
fn count_lines_render_numbers() {
    assert_eq!(report::checking_line(1), "Checking 1 artists");
    assert_eq!(report::checking_line(12), "Checking 12 artists");
    assert_eq!(report::loaded_line(7), "Loaded 7 releases");
    assert_eq!(report::no_new_music_line(), "No new music found");
}

#[test]
fn found_line_uses_singular_and_plural() {
    assert_eq!(report::found_line(1, "AVRALIZE"), "Found 1 new release for AVRALIZE");
    assert_eq!(report::found_line(2, "AVRALIZE"), "Found 2 new releases for AVRALIZE");
    assert_eq!(report::found_line(0, "AVRALIZE"), "Found 0 new releases for AVRALIZE");
}

#[test]
fn bullet_line_has_tab_and_marker() {
    assert_eq!(report::release_bullet("helium"), "\t • helium");
}

#[test]
fn artists_are_listed_case_insensitively_sorted() {
    let mut store = Store::new();
    artists::insert(&mut store, &Artist { id: 1, name: "beta".to_string() });
    artists::insert(&mut store, &Artist { id: 2, name: "Alpha".to_string() });
    artists::insert(&mut store, &Artist { id: 3, name: "GAMMA".to_string() });
    artists::insert(&mut store, &Artist { id: 4, name: "alpine".to_string() });
    let listed = report::list_artists(&store);
    assert_eq!(
        listed,
        vec![
            "Alpha".to_string(),
            "alpine".to_string(),
            "beta".to_string(),
            "GAMMA".to_string(),
        ]
    );
}

#[test]
fn listing_keeps_every_name() {
    let mut store = Store::new();
    artists::insert(&mut store, &Artist { id: 1, name: "Same".to_string() });
    artists::insert(&mut store, &Artist { id: 2, name: "Same".to_string() });
    let listed = report::list_artists(&store);
    assert_eq!(listed, vec!["Same".to_string(), "Same".to_string()]);
}
