use qobuz::release_type::ReleaseType;

const ALL_KINDS: [ReleaseType; 7] = [
    ReleaseType::Album,
    ReleaseType::Compilation,
    ReleaseType::Download,
    ReleaseType::EpSingle,
    ReleaseType::Live,
    ReleaseType::AwardedReleases,
    ReleaseType::Other,
];

#[test]
fn storage_names_are_exact() {
    assert_eq!(ReleaseType::Album.to_str(), "Album");
    assert_eq!(ReleaseType::Compilation.to_str(), "Compilation");
    assert_eq!(ReleaseType::Download.to_str(), "Download");
    assert_eq!(ReleaseType::EpSingle.to_str(), "EpSingle");
    assert_eq!(ReleaseType::Live.to_str(), "Live");
    assert_eq!(ReleaseType::AwardedReleases.to_str(), "AwardedReleases");
    assert_eq!(ReleaseType::Other.to_str(), "Other");
}

#[test]
fn storage_codec_round_trips() {
    for kind in ALL_KINDS {
        assert_eq!(ReleaseType::from_str(kind.to_str()), Some(kind));
    }
}

#[test]
fn storage_codec_rejects_unknown_names() {
    assert_eq!(ReleaseType::from_str(""), None);
    assert_eq!(ReleaseType::from_str("album"), None);
    assert_eq!(ReleaseType::from_str("Vinyl"), None);
    assert_eq!(ReleaseType::from_str("Albums"), None);
}

#[test]
fn wire_codec_round_trips() {
    assert_eq!(ReleaseType::from_wire("album"), Some(ReleaseType::Album));
    assert_eq!(ReleaseType::from_wire("compilation"), Some(ReleaseType::Compilation));
    assert_eq!(ReleaseType::from_wire("download"), Some(ReleaseType::Download));
    assert_eq!(ReleaseType::from_wire("epSingle"), Some(ReleaseType::EpSingle));
    assert_eq!(ReleaseType::from_wire("live"), Some(ReleaseType::Live));
    assert_eq!(ReleaseType::from_wire("awardedReleases"), Some(ReleaseType::AwardedReleases));
    assert_eq!(ReleaseType::from_wire("other"), Some(ReleaseType::Other));
}

#[test]
fn wire_codec_rejects_unknown_tags() {
    assert_eq!(ReleaseType::from_wire("Album"), None);
    assert_eq!(ReleaseType::from_wire("single"), None);
    assert_eq!(ReleaseType::from_wire(""), None);
}
