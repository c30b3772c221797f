//! Snapshot values handed in from the catalog service: an artist page
//! with its releases grouped by kind, the track listing of one release,
//! and the identifier of a freshly created remote playlist. Callers
//! decode the service's responses into these plain values before the
//! engine sees them.

use vstd::prelude::*;

use crate::release_type::ReleaseType;

verus! {

/// One artist's full discography snapshot.
pub struct ArtistPage {
    pub id: u32,
    pub name: ArtistName,
    pub releases: Vec<ArtistRelease>,
}

/// The display name of an artist as the catalog reports it.
pub struct ArtistName {
    pub display: String,
}

/// One kind-group of releases on an artist page.
pub struct ArtistRelease {
    pub release_type: ReleaseType,
    pub items: Vec<Release>,
}

/// One release entry on an artist page.
pub struct Release {
    pub id: String,
    pub title: String,
}

/// The identifier returned by the remote playlist-creation call.
pub struct NewPlaylist {
    pub id: i32,
}

/// The portion of an album page the engine consumes.
pub struct AlbumPage {
    pub tracks: Tracks,
}

/// The track listing of one release.
pub struct Tracks {
    pub items: Vec<Track>,
}

/// One playable track.
pub struct Track {
    pub id: i32,
    pub title: String,
}

impl Track {
    /// A field-for-field copy.
    pub fn duplicate(&self) -> (t: Track)
        ensures
            t == *self,
    {
        Track { id: self.id, title: self.title.clone() }
    }
}

impl Release {
    /// A field-for-field copy.
    pub fn duplicate(&self) -> (r: Release)
        ensures
            r == *self,
    {
        Release { id: self.id.clone(), title: self.title.clone() }
    }
}

} // verus!
