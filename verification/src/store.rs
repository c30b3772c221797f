//! The in-memory relational state of the tracker: artists, releases,
//! tracks, playlists and their associations, mirroring the persistent
//! schema. Every write operation has insert-or-ignore semantics keyed
//! on the catalog-assigned ids, so replaying an operation never
//! duplicates rows.
//!
//! Creation times are modelled by a logical clock: each inserted
//! release or playlist row is stamped with the current clock value and
//! the clock then advances, so creation times are unique and strictly
//! increase in insertion order. Callers that persist the store keep
//! whatever wall-clock representation they like alongside.

use vstd::prelude::*;

use crate::artists::Artist;
use crate::models::Track;
use crate::playlists::Playlist;
use crate::release_type::ReleaseType;
use crate::releases::Release;

verus! {

/// One stored release. `verified` means the release was confirmed to
/// carry at least one track; a release enters the store unverified.
pub struct ReleaseRow {
    pub id: String,
    pub title: String,
    pub release_type: ReleaseType,
    pub created_at: u64,
    pub verified: bool,
}

impl ReleaseRow {
    /// A field-for-field copy.
    pub fn duplicate(&self) -> (r: ReleaseRow)
        ensures
            r == *self,
    {
        ReleaseRow {
            id: self.id.clone(),
            title: self.title.clone(),
            release_type: self.release_type,
            created_at: self.created_at,
            verified: self.verified,
        }
    }
}

/// One stored playlist. Its creation time is the low-water mark for
/// the next playlist generation.
pub struct PlaylistRow {
    pub id: u32,
    pub name: String,
    pub created_at: u64,
}

/// The whole tracker state.
pub struct Store {
    pub artists: Vec<Artist>,
    pub releases: Vec<ReleaseRow>,
    pub artist_releases: Vec<(u32, String)>,
    pub tracks: Vec<Track>,
    pub track_releases: Vec<(String, i32)>,
    pub playlists: Vec<PlaylistRow>,
    pub clock: u64,
}

/// The mathematical model of a [`Store`]: the same tables as sequences.
#[verifier::ext_equal]
pub ghost struct StoreV {
    pub artists: Seq<Artist>,
    pub releases: Seq<ReleaseRow>,
    pub artist_releases: Seq<(u32, String)>,
    pub tracks: Seq<Track>,
    pub track_releases: Seq<(String, i32)>,
    pub playlists: Seq<PlaylistRow>,
    pub clock: u64,
}

impl View for Store {
    type V = StoreV;

    open spec fn view(&self) -> StoreV {
        StoreV {
            artists: self.artists@,
            releases: self.releases@,
            artist_releases: self.artist_releases@,
            tracks: self.tracks@,
            track_releases: self.track_releases@,
            playlists: self.playlists@,
            clock: self.clock,
        }
    }
}

impl Store {
    /// A fresh, empty store.
    pub fn new() -> (s: Store)
        ensures
            s@.wf(),
            s@ == StoreV::empty(),
    {
        let s = Store {
            artists: Vec::new(),
            releases: Vec::new(),
            artist_releases: Vec::new(),
            tracks: Vec::new(),
            track_releases: Vec::new(),
            playlists: Vec::new(),
            clock: 0,
        };
        proof {
            assert(s@ =~= StoreV::empty());
        }
        s
    }
}

/// Finds the index of the artist row with the given id.
pub fn find_artist(store: &Store, id: u32) -> (r: Option<usize>)
    ensures
        match r {
            Some(i) => i < store@.artists.len() && store@.artists[i as int].id == id
                && store@.has_artist(id),
            None => !store@.has_artist(id),
        },
{
    let n = store.artists.len();
    let mut i: usize = 0;
    while i < n
        invariant
            i <= n,
            n == store@.artists.len(),
            forall|j: int| 0 <= j < i ==> store@.artists[j].id != id,
        decreases n - i,
    {
        if store.artists[i].id == id {
            proof {
                assert(store@.artists[i as int].id == id);
            }
            return Some(i);
        }
        i = i + 1;
    }
    None
}

/// Finds the index of the release row with the given id.
pub fn find_release(store: &Store, id: &str) -> (r: Option<usize>)
    ensures
        match r {
            Some(i) => i < store@.releases.len() && store@.releases[i as int].id@ == id@
                && store@.has_release(id@),
            None => !store@.has_release(id@),
        },
{
    let n = store.releases.len();
    let mut i: usize = 0;
    while i < n
        invariant
            i <= n,
            n == store@.releases.len(),
            forall|j: int| 0 <= j < i ==> store@.releases[j].id@ != id@,
        decreases n - i,
    {
        if crate::strutil::str_eq(store.releases[i].id.as_str(), id) {
            proof {
                assert(store@.releases[i as int].id@ == id@);
            }
            return Some(i);
        }
        i = i + 1;
    }
    None
}

/// Finds the index of the track row with the given id.
pub fn find_track(store: &Store, id: i32) -> (r: Option<usize>)
    ensures
        match r {
            Some(i) => i < store@.tracks.len() && store@.tracks[i as int].id == id
                && store@.has_track(id),
            None => !store@.has_track(id),
        },
{
    let n = store.tracks.len();
    let mut i: usize = 0;
    while i < n
        invariant
            i <= n,
            n == store@.tracks.len(),
            forall|j: int| 0 <= j < i ==> store@.tracks[j].id != id,
        decreases n - i,
    {
        if store.tracks[i].id == id {
            proof {
                assert(store@.tracks[i as int].id == id);
            }
            return Some(i);
        }
        i = i + 1;
    }
    None
}

/// Finds the index of the playlist row with the given id.
pub fn find_playlist(store: &Store, id: u32) -> (r: Option<usize>)
    ensures
        match r {
            Some(i) => i < store@.playlists.len() && store@.playlists[i as int].id == id
                && store@.has_playlist(id),
            None => !store@.has_playlist(id),
        },
{
    let n = store.playlists.len();
    let mut i: usize = 0;
    while i < n
        invariant
            i <= n,
            n == store@.playlists.len(),
            forall|j: int| 0 <= j < i ==> store@.playlists[j].id != id,
        decreases n - i,
    {
        if store.playlists[i].id == id {
            proof {
                assert(store@.playlists[i as int].id == id);
            }
            return Some(i);
        }
        i = i + 1;
    }
    None
}

/// Checks whether an artist-release association is recorded.
pub fn contains_artist_release(store: &Store, artist_id: u32, release_id: &str) -> (r: bool)
    ensures
        r == store@.has_artist_release(artist_id, release_id@),
{
    let n = store.artist_releases.len();
    let mut i: usize = 0;
    while i < n
        invariant
            i <= n,
            n == store@.artist_releases.len(),
            forall|j: int|
                0 <= j < i ==> !(#[trigger] store@.artist_releases[j].0 == artist_id
                    && store@.artist_releases[j].1@ == release_id@),
        decreases n - i,
    {
        if store.artist_releases[i].0 == artist_id && crate::strutil::str_eq(
            store.artist_releases[i].1.as_str(),
            release_id,
        ) {
            proof {
                assert(store@.artist_releases[i as int].0 == artist_id
                    && store@.artist_releases[i as int].1@ == release_id@);
            }
            return true;
        }
        i = i + 1;
    }
    false
}

/// Checks whether a release-track association is recorded.
pub fn contains_track_release(store: &Store, release_id: &str, track_id: i32) -> (r: bool)
    ensures
        r == store@.has_track_release(release_id@, track_id),
{
    let n = store.track_releases.len();
    let mut i: usize = 0;
    while i < n
        invariant
            i <= n,
            n == store@.track_releases.len(),
            forall|j: int|
                0 <= j < i ==> !(#[trigger] store@.track_releases[j].0@ == release_id@
                    && store@.track_releases[j].1 == track_id),
        decreases n - i,
    {
        if store.track_releases[i].1 == track_id && crate::strutil::str_eq(
            store.track_releases[i].0.as_str(),
            release_id,
        ) {
            proof {
                assert(store@.track_releases[i as int].0@ == release_id@
                    && store@.track_releases[i as int].1 == track_id);
            }
            return true;
        }
        i = i + 1;
    }
    false
}

/// A sequence is a prefix of itself.
pub proof fn lemma_self_prefix<A>(s: Seq<A>)
    ensures
        s.is_prefix_of(s),
{
    assert(s =~= s.subrange(0, s.len() as int));
}

/// A sequence is a prefix of itself extended by one element.
pub proof fn lemma_push_prefix<A>(s: Seq<A>, x: A)
    ensures
        s.is_prefix_of(s.push(x)),
{
    assert(s =~= s.push(x).subrange(0, s.len() as int));
}

/// Being a prefix is transitive.
pub proof fn lemma_prefix_trans<A>(a: Seq<A>, b: Seq<A>, c: Seq<A>)
    requires
        a.is_prefix_of(b),
        b.is_prefix_of(c),
    ensures
        a.is_prefix_of(c),
{
    assert forall|i: int| 0 <= i < a.len() implies a[i] == c[i] by {
        assert(a[i] == b.subrange(0, a.len() as int)[i]);
        assert(b[i] == c.subrange(0, b.len() as int)[i]);
    }
    assert(a =~= c.subrange(0, a.len() as int));
}

impl StoreV {
    /// The model of a fresh store.
    pub open spec fn empty() -> StoreV {
        StoreV {
            artists: Seq::empty(),
            releases: Seq::empty(),
            artist_releases: Seq::empty(),
            tracks: Seq::empty(),
            track_releases: Seq::empty(),
            playlists: Seq::empty(),
            clock: 0,
        }
    }

    pub open spec fn has_artist(self, id: u32) -> bool {
        exists|i: int| 0 <= i < self.artists.len() && #[trigger] self.artists[i].id == id
    }

    /// The index of the artist row with the given id.
    pub open spec fn artist_index(self, id: u32) -> int {
        choose|i: int| 0 <= i < self.artists.len() && #[trigger] self.artists[i].id == id
    }

    /// The artist row with the given id.
    pub open spec fn artist_at(self, id: u32) -> Artist {
        self.artists[self.artist_index(id)]
    }

    pub open spec fn has_release(self, id: Seq<char>) -> bool {
        exists|i: int| 0 <= i < self.releases.len() && #[trigger] self.releases[i].id@ == id
    }

    /// The index of the release row with the given id.
    pub open spec fn release_index(self, id: Seq<char>) -> int {
        choose|i: int| 0 <= i < self.releases.len() && #[trigger] self.releases[i].id@ == id
    }

    /// The release row with the given id.
    pub open spec fn release_at(self, id: Seq<char>) -> ReleaseRow {
        self.releases[self.release_index(id)]
    }

    pub open spec fn has_track(self, id: i32) -> bool {
        exists|i: int| 0 <= i < self.tracks.len() && #[trigger] self.tracks[i].id == id
    }

    pub open spec fn has_playlist(self, id: u32) -> bool {
        exists|i: int| 0 <= i < self.playlists.len() && #[trigger] self.playlists[i].id == id
    }

    /// Whether the given artist-release association is recorded.
    pub open spec fn has_artist_release(self, artist_id: u32, release_id: Seq<char>) -> bool {
        exists|i: int|
            0 <= i < self.artist_releases.len() && #[trigger] self.artist_releases[i].0
                == artist_id && self.artist_releases[i].1@ == release_id
    }

    /// Whether the given release-track association is recorded.
    pub open spec fn has_track_release(self, release_id: Seq<char>, track_id: i32) -> bool {
        exists|i: int|
            0 <= i < self.track_releases.len() && #[trigger] self.track_releases[i].0@
                == release_id && self.track_releases[i].1 == track_id
    }

    /// Whether some track is associated with the given release.
    pub open spec fn has_any_track_for(self, release_id: Seq<char>) -> bool {
        exists|i: int|
            0 <= i < self.track_releases.len() && #[trigger] self.track_releases[i].0@
                == release_id
    }

    /// The low-water mark: the creation time of the most recent
    /// playlist. Meaningful only when a playlist exists.
    pub open spec fn latest_mark(self) -> u64 {
        self.playlists.last().created_at
    }

    /// Whether a creation time is at or after the low-water mark; with
    /// no playlist yet there is no lower bound.
    pub open spec fn in_window(self, created_at: u64) -> bool {
        self.playlists.len() == 0 || created_at >= self.latest_mark()
    }

    /// Artist ids are unique.
    pub open spec fn artists_ok(self) -> bool {
        forall|i: int, j: int|
            #![trigger self.artists[i], self.artists[j]]
            0 <= i < j < self.artists.len() ==> self.artists[i].id != self.artists[j].id
    }

    /// Release ids are unique.
    pub open spec fn releases_ok(self) -> bool {
        forall|i: int, j: int|
            #![trigger self.releases[i], self.releases[j]]
            0 <= i < j < self.releases.len() ==> self.releases[i].id@ != self.releases[j].id@
    }

    /// Track ids are unique.
    pub open spec fn tracks_ok(self) -> bool {
        forall|i: int, j: int|
            #![trigger self.tracks[i], self.tracks[j]]
            0 <= i < j < self.tracks.len() ==> self.tracks[i].id != self.tracks[j].id
    }

    /// Playlist ids are unique and creation times strictly increase in
    /// table order.
    pub open spec fn playlists_ok(self) -> bool {
        &&& forall|i: int, j: int|
            #![trigger self.playlists[i], self.playlists[j]]
            0 <= i < j < self.playlists.len() ==> self.playlists[i].id != self.playlists[j].id
        &&& forall|i: int, j: int|
            #![trigger self.playlists[i], self.playlists[j]]
            0 <= i < j < self.playlists.len() ==> self.playlists[i].created_at
                < self.playlists[j].created_at
    }

    /// Association pairs are pairwise distinct.
    pub open spec fn assocs_ok(self) -> bool {
        &&& forall|i: int, j: int|
            #![trigger self.artist_releases[i], self.artist_releases[j]]
            0 <= i < j < self.artist_releases.len() ==> !(self.artist_releases[i].0
                == self.artist_releases[j].0 && self.artist_releases[i].1@
                == self.artist_releases[j].1@)
        &&& forall|i: int, j: int|
            #![trigger self.track_releases[i], self.track_releases[j]]
            0 <= i < j < self.track_releases.len() ==> !(self.track_releases[i].0@
                == self.track_releases[j].0@ && self.track_releases[i].1
                == self.track_releases[j].1)
    }

    /// Every stamped creation time lies strictly below the clock.
    pub open spec fn clock_ok(self) -> bool {
        &&& forall|i: int|
            0 <= i < self.releases.len() ==> #[trigger] self.releases[i].created_at < self.clock
        &&& forall|i: int|
            0 <= i < self.playlists.len() ==> #[trigger] self.playlists[i].created_at < self.clock
    }

    /// A verified release has at least one associated track, and
    /// associations refer to existing rows.
    pub open spec fn refs_ok(self) -> bool {
        &&& forall|i: int|
            0 <= i < self.releases.len() && #[trigger] self.releases[i].verified
                ==> self.has_any_track_for(self.releases[i].id@)
        &&& forall|i: int|
            0 <= i < self.artist_releases.len() ==> self.has_release(
                #[trigger] self.artist_releases[i].1@,
            )
        &&& forall|i: int|
            0 <= i < self.track_releases.len() ==> self.has_track(
                #[trigger] self.track_releases[i].1,
            )
    }

    /// Well-formedness of the whole state.
    pub open spec fn wf(self) -> bool {
        &&& self.artists_ok()
        &&& self.releases_ok()
        &&& self.tracks_ok()
        &&& self.playlists_ok()
        &&& self.assocs_ok()
        &&& self.clock_ok()
        &&& self.refs_ok()
    }

    /// Growing the tables never invalidates an existing lookup.
    pub proof fn lemma_grow_preserves(self, post: StoreV)
        requires
            self.artists.is_prefix_of(post.artists),
            self.releases.is_prefix_of(post.releases),
            self.artist_releases.is_prefix_of(post.artist_releases),
            self.tracks.is_prefix_of(post.tracks),
            self.track_releases.is_prefix_of(post.track_releases),
            self.playlists.is_prefix_of(post.playlists),
        ensures
            forall|id: u32| #[trigger] self.has_artist(id) ==> post.has_artist(id),
            forall|id: Seq<char>| #[trigger] self.has_release(id) ==> post.has_release(id),
            forall|id: i32| #[trigger] self.has_track(id) ==> post.has_track(id),
            forall|id: u32| #[trigger] self.has_playlist(id) ==> post.has_playlist(id),
            forall|a: u32, r: Seq<char>| #[trigger]
                self.has_artist_release(a, r) ==> post.has_artist_release(a, r),
            forall|r: Seq<char>, t: i32| #[trigger]
                self.has_track_release(r, t) ==> post.has_track_release(r, t),
            forall|r: Seq<char>| #[trigger] self.has_any_track_for(r) ==> post.has_any_track_for(
                r,
            ),
    {
        assert forall|id: u32| #[trigger] self.has_artist(id) implies post.has_artist(id) by {
            let k = choose|k: int| 0 <= k < self.artists.len() && #[trigger] self.artists[k].id
                == id;
            assert(post.artists[k].id == id);
        }
        assert forall|id: Seq<char>| #[trigger] self.has_release(id) implies post.has_release(
            id,
        ) by {
            let k = choose|k: int| 0 <= k < self.releases.len() && #[trigger] self.releases[k].id@
                == id;
            assert(post.releases[k].id@ == id);
        }
        assert forall|id: i32| #[trigger] self.has_track(id) implies post.has_track(id) by {
            let k = choose|k: int| 0 <= k < self.tracks.len() && #[trigger] self.tracks[k].id == id;
            assert(post.tracks[k].id == id);
        }
        assert forall|id: u32| #[trigger] self.has_playlist(id) implies post.has_playlist(id) by {
            let k = choose|k: int| 0 <= k < self.playlists.len() && #[trigger] self.playlists[k].id
                == id;
            assert(post.playlists[k].id == id);
        }
        assert forall|a: u32, r: Seq<char>| #[trigger]
            self.has_artist_release(a, r) implies post.has_artist_release(a, r) by {
            let k = choose|k: int|
                0 <= k < self.artist_releases.len() && #[trigger] self.artist_releases[k].0 == a
                    && self.artist_releases[k].1@ == r;
            assert(post.artist_releases[k].0 == a && post.artist_releases[k].1@ == r);
        }
        assert forall|r: Seq<char>, t: i32| #[trigger]
            self.has_track_release(r, t) implies post.has_track_release(r, t) by {
            let k = choose|k: int|
                0 <= k < self.track_releases.len() && #[trigger] self.track_releases[k].0@ == r
                    && self.track_releases[k].1 == t;
            assert(post.track_releases[k].0@ == r && post.track_releases[k].1 == t);
        }
        assert forall|r: Seq<char>| #[trigger]
            self.has_any_track_for(r) implies post.has_any_track_for(r) by {
            let k = choose|k: int|
                0 <= k < self.track_releases.len() && #[trigger] self.track_releases[k].0@ == r;
            assert(post.track_releases[k].0@ == r);
        }
    }

    /// All prefix facts needed by `lemma_grow_preserves` when nothing
    /// changed at all.
    proof fn lemma_prefix_refl_all(self)
        ensures
            self.artists.is_prefix_of(self.artists),
            self.releases.is_prefix_of(self.releases),
            self.artist_releases.is_prefix_of(self.artist_releases),
            self.tracks.is_prefix_of(self.tracks),
            self.track_releases.is_prefix_of(self.track_releases),
            self.playlists.is_prefix_of(self.playlists),
    {
        lemma_self_prefix(self.artists);
        lemma_self_prefix(self.releases);
        lemma_self_prefix(self.artist_releases);
        lemma_self_prefix(self.tracks);
        lemma_self_prefix(self.track_releases);
        lemma_self_prefix(self.playlists);
    }

    /// Re-proves the reference conditions for a state whose relevant
    /// tables did not shrink and whose new rows are already covered.
    proof fn lemma_refs_ok_same_tables(self, post: StoreV)
        requires
            self.refs_ok(),
            post.releases == self.releases,
            post.artist_releases == self.artist_releases,
            post.tracks == self.tracks,
            post.track_releases == self.track_releases,
        ensures
            post.refs_ok(),
    {
        self.lemma_prefix_refl_all();
        self.lemma_grow_preserves(
            StoreV {
                artists: self.artists,
                releases: self.releases,
                artist_releases: self.artist_releases,
                tracks: self.tracks,
                track_releases: self.track_releases,
                playlists: self.playlists,
                clock: post.clock,
            },
        );
        assert forall|i: int|
            0 <= i < post.releases.len() && #[trigger] post.releases[i].verified implies post
            .has_any_track_for(post.releases[i].id@) by {
            assert(self.releases[i].verified);
            assert(self.has_any_track_for(self.releases[i].id@));
            let k = choose|k: int|
                0 <= k < self.track_releases.len() && #[trigger] self.track_releases[k].0@
                    == self.releases[i].id@;
            assert(post.track_releases[k].0@ == post.releases[i].id@);
        }
        assert forall|i: int| 0 <= i < post.artist_releases.len() implies post.has_release(
            #[trigger] post.artist_releases[i].1@,
        ) by {
            assert(self.has_release(self.artist_releases[i].1@));
            let k = choose|k: int| 0 <= k < self.releases.len() && #[trigger] self.releases[k].id@
                == self.artist_releases[i].1@;
            assert(post.releases[k].id@ == post.artist_releases[i].1@);
        }
        assert forall|i: int| 0 <= i < post.track_releases.len() implies post.has_track(
            #[trigger] post.track_releases[i].1,
        ) by {
            assert(self.has_track(self.track_releases[i].1));
            let k = choose|k: int| 0 <= k < self.tracks.len() && #[trigger] self.tracks[k].id
                == self.track_releases[i].1;
            assert(post.tracks[k].id == post.track_releases[i].1);
        }
    }

    /// If an artist row with the given id sits at index `i`, it is the
    /// row `artist_at` denotes.
    pub proof fn lemma_artist_at_unique(self, id: u32, i: int)
        requires
            self.artists_ok(),
            0 <= i < self.artists.len(),
            self.artists[i].id == id,
        ensures
            self.has_artist(id),
            self.artist_index(id) == i,
            self.artist_at(id) == self.artists[i],
    {
        assert(self.has_artist(id));
        let k = self.artist_index(id);
        if k != i {
            if k < i {
                assert(self.artists[k].id != self.artists[i].id);
            } else {
                assert(self.artists[i].id != self.artists[k].id);
            }
        }
    }

    /// If a release row with the given id sits at index `i`, it is the
    /// row `release_at` denotes.
    pub proof fn lemma_release_at_unique(self, id: Seq<char>, i: int)
        requires
            self.releases_ok(),
            0 <= i < self.releases.len(),
            self.releases[i].id@ == id,
        ensures
            self.has_release(id),
            self.release_index(id) == i,
            self.release_at(id) == self.releases[i],
    {
        assert(self.has_release(id));
        let k = self.release_index(id);
        if k != i {
            if k < i {
                assert(self.releases[k].id@ != self.releases[i].id@);
            } else {
                assert(self.releases[i].id@ != self.releases[k].id@);
            }
        }
    }

    /// The state after upserting an artist: a new row unless the id is
    /// already present, in which case the existing row wins.
    pub open spec fn with_artist(self, a: Artist) -> StoreV {
        if self.has_artist(a.id) {
            self
        } else {
            StoreV { artists: self.artists.push(a), ..self }
        }
    }

    /// Upserting an artist keeps the store well-formed.
    pub proof fn lemma_with_artist_wf(self, a: Artist)
        requires
            self.wf(),
        ensures
            self.with_artist(a).wf(),
    {
        if !self.has_artist(a.id) {
            let s1 = self.with_artist(a);
            assert forall|i: int, j: int| 0 <= i < j < s1.artists.len() implies s1.artists[i].id
                != s1.artists[j].id by {
                if j < self.artists.len() {
                    assert(self.artists[i].id != self.artists[j].id);
                } else {
                    assert(s1.artists[j] == a);
                    assert(self.artists[i].id != a.id);
                }
            }
            self.lemma_refs_ok_same_tables(s1);
        }
    }

    /// The state after inserting one release for an artist: the release
    /// row is added unless its id is known (the existing row wins), and
    /// the artist association is added unless it is already recorded.
    pub open spec fn with_release(self, artist_id: u32, r: Release) -> StoreV {
        let s1 = if self.has_release(r.id@) {
            self
        } else {
            StoreV {
                releases: self.releases.push(
                    ReleaseRow {
                        id: r.id,
                        title: r.title,
                        release_type: r.release_type,
                        created_at: self.clock,
                        verified: false,
                    },
                ),
                clock: (self.clock + 1) as u64,
                ..self
            }
        };
        if s1.has_artist_release(artist_id, r.id@) {
            s1
        } else {
            StoreV { artist_releases: s1.artist_releases.push((artist_id, r.id)), ..s1 }
        }
    }

    /// Inserting one release keeps the store well-formed and advances
    /// the clock by at most one step.
    pub proof fn lemma_with_release_wf(self, artist_id: u32, r: Release)
        requires
            self.wf(),
            self.clock < u64::MAX,
        ensures
            self.with_release(artist_id, r).wf(),
            self.clock <= self.with_release(artist_id, r).clock <= self.clock + 1,
            self.with_release(artist_id, r).has_release(r.id@),
            self.with_release(artist_id, r).has_artist_release(artist_id, r.id@),
    {
        let s1 = if self.has_release(r.id@) {
            self
        } else {
            StoreV {
                releases: self.releases.push(
                    ReleaseRow {
                        id: r.id,
                        title: r.title,
                        release_type: r.release_type,
                        created_at: self.clock,
                        verified: false,
                    },
                ),
                clock: (self.clock + 1) as u64,
                ..self
            }
        };
        if self.has_release(r.id@) {
            self.lemma_refs_ok_same_tables(s1);
        } else {
            let row = ReleaseRow {
                id: r.id,
                title: r.title,
                release_type: r.release_type,
                created_at: self.clock,
                verified: false,
            };
            assert forall|i: int, j: int| 0 <= i < j < s1.releases.len() implies s1.releases[i].id@
                != s1.releases[j].id@ by {
                if j < self.releases.len() {
                    assert(self.releases[i].id@ != self.releases[j].id@);
                } else {
                    assert(s1.releases[j] == row);
                    assert(self.releases[i].id@ != r.id@);
                }
            }
            assert(s1.releases_ok());
            assert forall|i: int| 0 <= i < s1.releases.len() implies #[trigger] s1.releases[
                i].created_at < s1.clock by {
                if i < self.releases.len() {
                    assert(self.releases[i].created_at < self.clock);
                }
            }
            assert(s1.clock_ok());
            self.lemma_prefix_refl_all();
            lemma_push_prefix(self.releases, row);
            self.lemma_grow_preserves(s1);
            assert forall|i: int|
                0 <= i < s1.releases.len() && #[trigger] s1.releases[i].verified implies s1
                .has_any_track_for(s1.releases[i].id@) by {
                assert(i < self.releases.len());
                assert(self.releases[i].verified);
                assert(self.has_any_track_for(self.releases[i].id@));
            }
            assert forall|i: int| 0 <= i < s1.artist_releases.len() implies s1.has_release(
                #[trigger] s1.artist_releases[i].1@,
            ) by {
                assert(self.has_release(self.artist_releases[i].1@));
            }
            assert forall|i: int| 0 <= i < s1.track_releases.len() implies s1.has_track(
                #[trigger] s1.track_releases[i].1,
            ) by {
                assert(self.has_track(self.track_releases[i].1));
            }
            assert(s1.refs_ok());
        }
        assert(s1.wf());
        assert(s1.has_release(r.id@)) by {
            if self.has_release(r.id@) {
                let k = choose|k: int| 0 <= k < self.releases.len()
                    && #[trigger] self.releases[k].id@ == r.id@;
                assert(s1.releases[k].id@ == r.id@);
            } else {
                assert(s1.releases[self.releases.len() as int].id@ == r.id@);
            }
        }
        let s2 = self.with_release(artist_id, r);
        if s1.has_artist_release(artist_id, r.id@) {
        } else {
            assert forall|i: int, j: int| 0 <= i < j < s2.artist_releases.len() implies !(
            s2.artist_releases[i].0 == s2.artist_releases[j].0 && s2.artist_releases[i].1@
                == s2.artist_releases[j].1@) by {
                if j < s1.artist_releases.len() {
                    assert(!(s1.artist_releases[i].0 == s1.artist_releases[j].0
                        && s1.artist_releases[i].1@ == s1.artist_releases[j].1@));
                } else {
                    assert(s2.artist_releases[j] == (artist_id, r.id));
                    if s1.artist_releases[i].0 == artist_id && s1.artist_releases[i].1@ == r.id@ {
                        assert(s1.has_artist_release(artist_id, r.id@));
                        assert(false);
                    }
                }
            }
            assert(s2.assocs_ok());
            s1.lemma_prefix_refl_all();
            lemma_push_prefix(s1.artist_releases, (artist_id, r.id));
            s1.lemma_grow_preserves(s2);
            assert forall|i: int|
                0 <= i < s2.releases.len() && #[trigger] s2.releases[i].verified implies s2
                .has_any_track_for(s2.releases[i].id@) by {
                assert(s1.releases[i].verified);
                assert(s1.has_any_track_for(s1.releases[i].id@));
            }
            assert forall|i: int| 0 <= i < s2.artist_releases.len() implies s2.has_release(
                #[trigger] s2.artist_releases[i].1@,
            ) by {
                if i < s1.artist_releases.len() {
                    assert(s1.has_release(s1.artist_releases[i].1@));
                } else {
                    assert(s2.artist_releases[i] == (artist_id, r.id));
                    assert(s1.has_release(r.id@));
                }
            }
            assert forall|i: int| 0 <= i < s2.track_releases.len() implies s2.has_track(
                #[trigger] s2.track_releases[i].1,
            ) by {
                assert(s1.has_track(s1.track_releases[i].1));
            }
            assert(s2.refs_ok());
        }
        assert(s2.has_artist_release(artist_id, r.id@)) by {
            if s1.has_artist_release(artist_id, r.id@) {
                let k = choose|k: int|
                    0 <= k < s1.artist_releases.len() && #[trigger] s1.artist_releases[k].0
                        == artist_id && s1.artist_releases[k].1@ == r.id@;
                assert(s2.artist_releases[k].0 == artist_id && s2.artist_releases[k].1@ == r.id@);
            } else {
                let k = s1.artist_releases.len() as int;
                assert(s2.artist_releases[k].0 == artist_id && s2.artist_releases[k].1@ == r.id@);
            }
        }
        assert(s2.has_release(r.id@)) by {
            let k = choose|k: int| 0 <= k < s1.releases.len() && #[trigger] s1.releases[k].id@
                == r.id@;
            assert(s2.releases[k].id@ == r.id@);
        }
    }

    /// Inserting one release touches only the release tables, which
    /// grow by at most one row each.
    pub proof fn lemma_with_release_grows(self, artist_id: u32, r: Release)
        ensures
            self.with_release(artist_id, r).artists == self.artists,
            self.with_release(artist_id, r).tracks == self.tracks,
            self.with_release(artist_id, r).track_releases == self.track_releases,
            self.with_release(artist_id, r).playlists == self.playlists,
            self.artists.is_prefix_of(self.with_release(artist_id, r).artists),
            self.tracks.is_prefix_of(self.with_release(artist_id, r).tracks),
            self.track_releases.is_prefix_of(self.with_release(artist_id, r).track_releases),
            self.playlists.is_prefix_of(self.with_release(artist_id, r).playlists),
            self.releases.is_prefix_of(self.with_release(artist_id, r).releases),
            self.artist_releases.is_prefix_of(self.with_release(artist_id, r).artist_releases),
    {
        let post = self.with_release(artist_id, r);
        lemma_self_prefix(self.artists);
        lemma_self_prefix(self.tracks);
        lemma_self_prefix(self.track_releases);
        lemma_self_prefix(self.playlists);
        assert(self.releases.is_prefix_of(post.releases)) by {
            if self.has_release(r.id@) {
                lemma_self_prefix(self.releases);
            } else {
                lemma_push_prefix(
                    self.releases,
                    ReleaseRow {
                        id: r.id,
                        title: r.title,
                        release_type: r.release_type,
                        created_at: self.clock,
                        verified: false,
                    },
                );
            }
        }
        assert(self.artist_releases.is_prefix_of(post.artist_releases)) by {
            if post.artist_releases == self.artist_releases {
                lemma_self_prefix(self.artist_releases);
            } else {
                lemma_push_prefix(self.artist_releases, (artist_id, r.id));
            }
        }
    }

    /// After inserting a release, its row and its artist association
    /// are present.
    pub proof fn lemma_with_release_adds(self, artist_id: u32, r: Release)
        ensures
            self.with_release(artist_id, r).has_release(r.id@),
            self.with_release(artist_id, r).has_artist_release(artist_id, r.id@),
    {
        let post = self.with_release(artist_id, r);
        let s1 = if self.has_release(r.id@) {
            self
        } else {
            StoreV {
                releases: self.releases.push(
                    ReleaseRow {
                        id: r.id,
                        title: r.title,
                        release_type: r.release_type,
                        created_at: self.clock,
                        verified: false,
                    },
                ),
                clock: (self.clock + 1) as u64,
                ..self
            }
        };
        assert(s1.has_release(r.id@)) by {
            if self.has_release(r.id@) {
                let k = choose|k: int| 0 <= k < self.releases.len()
                    && #[trigger] self.releases[k].id@ == r.id@;
                assert(s1.releases[k].id@ == r.id@);
            } else {
                assert(s1.releases[self.releases.len() as int].id@ == r.id@);
            }
        }
        assert(post.has_release(r.id@)) by {
            let k = choose|k: int| 0 <= k < s1.releases.len() && #[trigger] s1.releases[k].id@
                == r.id@;
            assert(post.releases[k].id@ == r.id@);
        }
        assert(post.has_artist_release(artist_id, r.id@)) by {
            if s1.has_artist_release(artist_id, r.id@) {
                let k = choose|k: int|
                    0 <= k < s1.artist_releases.len() && #[trigger] s1.artist_releases[k].0
                        == artist_id && s1.artist_releases[k].1@ == r.id@;
                assert(post.artist_releases[k].0 == artist_id && post.artist_releases[k].1@
                    == r.id@);
            } else {
                let k = s1.artist_releases.len() as int;
                assert(post.artist_releases[k].0 == artist_id && post.artist_releases[k].1@
                    == r.id@);
            }
        }
    }

    /// Inserting a release whose row and association are already
    /// present changes nothing.
    pub proof fn lemma_with_release_identity(self, artist_id: u32, r: Release)
        requires
            self.has_release(r.id@),
            self.has_artist_release(artist_id, r.id@),
        ensures
            self.with_release(artist_id, r) == self,
    {
    }

    /// The state after inserting a batch of releases for an artist, in
    /// order.
    pub open spec fn with_releases(self, artist_id: u32, rs: Seq<Release>) -> StoreV
        decreases rs.len(),
    {
        if rs.len() == 0 {
            self
        } else {
            self.with_release(artist_id, rs[0]).with_releases(artist_id, rs.drop_first())
        }
    }

    /// Batch insertion processed front to back equals processing the
    /// last element after the rest.
    pub proof fn lemma_with_releases_snoc(self, artist_id: u32, rs: Seq<Release>, r: Release)
        ensures
            self.with_releases(artist_id, rs.push(r)) == self.with_releases(
                artist_id,
                rs,
            ).with_release(artist_id, r),
        decreases rs.len(),
    {
        let ext = rs.push(r);
        reveal_with_fuel(StoreV::with_releases, 3);
        if rs.len() == 0 {
            assert(ext[0] == r);
            assert(ext.drop_first() =~= Seq::<Release>::empty());
        } else {
            assert(ext[0] == rs[0]);
            assert(ext.drop_first() =~= rs.drop_first().push(r));
            self.with_release(artist_id, rs[0]).lemma_with_releases_snoc(
                artist_id,
                rs.drop_first(),
                r,
            );
        }
    }

    /// Batch insertion keeps the store well-formed; the clock advances
    /// by at most one step per release.
    pub proof fn lemma_with_releases_wf(self, artist_id: u32, rs: Seq<Release>)
        requires
            self.wf(),
            self.clock + rs.len() <= u64::MAX,
        ensures
            self.with_releases(artist_id, rs).wf(),
            self.clock <= self.with_releases(artist_id, rs).clock <= self.clock + rs.len(),
        decreases rs.len(),
    {
        if rs.len() > 0 {
            self.lemma_with_release_wf(artist_id, rs[0]);
            self.with_release(artist_id, rs[0]).lemma_with_releases_wf(
                artist_id,
                rs.drop_first(),
            );
        }
    }

    /// Batch insertion touches only the release tables, which only
    /// grow.
    pub proof fn lemma_with_releases_grows(self, artist_id: u32, rs: Seq<Release>)
        ensures
            self.with_releases(artist_id, rs).artists == self.artists,
            self.with_releases(artist_id, rs).tracks == self.tracks,
            self.with_releases(artist_id, rs).track_releases == self.track_releases,
            self.with_releases(artist_id, rs).playlists == self.playlists,
            self.artists.is_prefix_of(self.with_releases(artist_id, rs).artists),
            self.tracks.is_prefix_of(self.with_releases(artist_id, rs).tracks),
            self.track_releases.is_prefix_of(self.with_releases(artist_id, rs).track_releases),
            self.playlists.is_prefix_of(self.with_releases(artist_id, rs).playlists),
            self.releases.is_prefix_of(self.with_releases(artist_id, rs).releases),
            self.artist_releases.is_prefix_of(self.with_releases(artist_id, rs).artist_releases),
        decreases rs.len(),
    {
        if rs.len() == 0 {
            self.lemma_prefix_refl_all();
        } else {
            let s1 = self.with_release(artist_id, rs[0]);
            self.lemma_with_release_grows(artist_id, rs[0]);
            s1.lemma_with_releases_grows(artist_id, rs.drop_first());
            let post = self.with_releases(artist_id, rs);
            lemma_prefix_trans(self.releases, s1.releases, post.releases);
            lemma_prefix_trans(self.artist_releases, s1.artist_releases, post.artist_releases);
            self.lemma_prefix_refl_all();
        }
    }

    /// After a batch insertion, every release of the batch is present
    /// together with its artist association.
    pub proof fn lemma_with_releases_adds(self, artist_id: u32, rs: Seq<Release>)
        ensures
            forall|k: int|
                0 <= k < rs.len() ==> self.with_releases(artist_id, rs).has_release(
                    (#[trigger] rs[k]).id@,
                ) && self.with_releases(artist_id, rs).has_artist_release(artist_id, rs[k].id@),
        decreases rs.len(),
    {
        if rs.len() > 0 {
            let s1 = self.with_release(artist_id, rs[0]);
            let post = self.with_releases(artist_id, rs);
            self.lemma_with_release_adds(artist_id, rs[0]);
            s1.lemma_with_releases_adds(artist_id, rs.drop_first());
            s1.lemma_with_releases_grows(artist_id, rs.drop_first());
            s1.lemma_grow_preserves(post);
            assert forall|k: int| 0 <= k < rs.len() implies post.has_release((#[trigger] rs[k]).id@)
                && post.has_artist_release(artist_id, rs[k].id@) by {
                if k == 0 {
                    assert(s1.has_release(rs[0].id@));
                    assert(s1.has_artist_release(artist_id, rs[0].id@));
                } else {
                    assert(rs.drop_first()[k - 1] == rs[k]);
                    assert(post.has_release(rs.drop_first()[k - 1].id@));
                    assert(post.has_artist_release(artist_id, rs.drop_first()[k - 1].id@));
                }
            }
        }
    }

    /// A batch insertion whose rows and associations are all present
    /// already changes nothing.
    pub proof fn lemma_with_releases_identity(self, artist_id: u32, rs: Seq<Release>)
        requires
            forall|k: int|
                0 <= k < rs.len() ==> self.has_release((#[trigger] rs[k]).id@)
                    && self.has_artist_release(artist_id, rs[k].id@),
        ensures
            self.with_releases(artist_id, rs) == self,
        decreases rs.len(),
    {
        if rs.len() > 0 {
            assert(self.has_release(rs[0].id@) && self.has_artist_release(artist_id, rs[0].id@));
            self.lemma_with_release_identity(artist_id, rs[0]);
            assert forall|k: int| 0 <= k < rs.drop_first().len() implies self.has_release(
                (#[trigger] rs.drop_first()[k]).id@,
            ) && self.has_artist_release(artist_id, rs.drop_first()[k].id@) by {
                assert(rs.drop_first()[k] == rs[k + 1]);
                assert(self.has_release(rs[k + 1].id@));
                assert(self.has_artist_release(artist_id, rs[k + 1].id@));
            }
            self.lemma_with_releases_identity(artist_id, rs.drop_first());
        }
    }

    /// The state after inserting one track with its association to a
    /// release: the track row is added unless its id is known, and the
    /// association is added unless it is already recorded.
    pub open spec fn with_track(self, release_id: String, t: Track) -> StoreV {
        let s1 = if self.has_track(t.id) {
            self
        } else {
            StoreV { tracks: self.tracks.push(t), ..self }
        };
        if s1.has_track_release(release_id@, t.id) {
            s1
        } else {
            StoreV { track_releases: s1.track_releases.push((release_id, t.id)), ..s1 }
        }
    }

    /// Inserting one track keeps the store well-formed and records an
    /// association for the release.
    pub proof fn lemma_with_track_wf(self, release_id: String, t: Track)
        requires
            self.wf(),
        ensures
            self.with_track(release_id, t).wf(),
            self.with_track(release_id, t).has_any_track_for(release_id@),
            self.with_track(release_id, t).clock == self.clock,
            self.with_track(release_id, t).releases == self.releases,
            self.with_track(release_id, t).artists == self.artists,
            self.with_track(release_id, t).artist_releases == self.artist_releases,
            self.with_track(release_id, t).playlists == self.playlists,
    {
        let s1 = if self.has_track(t.id) {
            self
        } else {
            StoreV { tracks: self.tracks.push(t), ..self }
        };
        if self.has_track(t.id) {
            self.lemma_refs_ok_same_tables(s1);
        } else {
            assert forall|i: int, j: int| 0 <= i < j < s1.tracks.len() implies s1.tracks[i].id
                != s1.tracks[j].id by {
                if j < self.tracks.len() {
                    assert(self.tracks[i].id != self.tracks[j].id);
                } else {
                    assert(s1.tracks[j] == t);
                    assert(self.tracks[i].id != t.id);
                }
            }
            assert(s1.tracks_ok());
            self.lemma_prefix_refl_all();
            lemma_push_prefix(self.tracks, t);
            self.lemma_grow_preserves(s1);
            assert forall|i: int|
                0 <= i < s1.releases.len() && #[trigger] s1.releases[i].verified implies s1
                .has_any_track_for(s1.releases[i].id@) by {
                assert(self.releases[i].verified);
                assert(self.has_any_track_for(self.releases[i].id@));
            }
            assert forall|i: int| 0 <= i < s1.artist_releases.len() implies s1.has_release(
                #[trigger] s1.artist_releases[i].1@,
            ) by {
                assert(self.has_release(self.artist_releases[i].1@));
            }
            assert forall|i: int| 0 <= i < s1.track_releases.len() implies s1.has_track(
                #[trigger] s1.track_releases[i].1,
            ) by {
                assert(self.has_track(self.track_releases[i].1));
            }
            assert(s1.refs_ok());
        }
        assert(s1.wf());
        assert(s1.has_track(t.id)) by {
            if self.has_track(t.id) {
                let k = choose|k: int| 0 <= k < self.tracks.len() && #[trigger] self.tracks[k].id
                    == t.id;
                assert(s1.tracks[k].id == t.id);
            } else {
                assert(s1.tracks[self.tracks.len() as int].id == t.id);
            }
        }
        let s2 = self.with_track(release_id, t);
        if s1.has_track_release(release_id@, t.id) {
            assert(s2.has_any_track_for(release_id@)) by {
                let k = choose|k: int|
                    0 <= k < s1.track_releases.len() && #[trigger] s1.track_releases[k].0@
                        == release_id@ && s1.track_releases[k].1 == t.id;
                assert(s2.track_releases[k].0@ == release_id@);
            }
        } else {
            assert forall|i: int, j: int| 0 <= i < j < s2.track_releases.len() implies !(
            s2.track_releases[i].0@ == s2.track_releases[j].0@ && s2.track_releases[i].1
                == s2.track_releases[j].1) by {
                if j < s1.track_releases.len() {
                    assert(!(s1.track_releases[i].0@ == s1.track_releases[j].0@
                        && s1.track_releases[i].1 == s1.track_releases[j].1));
                } else {
                    assert(s2.track_releases[j] == (release_id, t.id));
                    if s1.track_releases[i].0@ == release_id@ && s1.track_releases[i].1 == t.id {
                        assert(s1.has_track_release(release_id@, t.id));
                        assert(false);
                    }
                }
            }
            assert(s2.assocs_ok());
            s1.lemma_prefix_refl_all();
            lemma_push_prefix(s1.track_releases, (release_id, t.id));
            s1.lemma_grow_preserves(s2);
            assert forall|i: int|
                0 <= i < s2.releases.len() && #[trigger] s2.releases[i].verified implies s2
                .has_any_track_for(s2.releases[i].id@) by {
                assert(s1.releases[i].verified);
                assert(s1.has_any_track_for(s1.releases[i].id@));
            }
            assert forall|i: int| 0 <= i < s2.artist_releases.len() implies s2.has_release(
                #[trigger] s2.artist_releases[i].1@,
            ) by {
                assert(s1.has_release(s1.artist_releases[i].1@));
            }
            assert forall|i: int| 0 <= i < s2.track_releases.len() implies s2.has_track(
                #[trigger] s2.track_releases[i].1,
            ) by {
                if i < s1.track_releases.len() {
                    assert(s1.has_track(s1.track_releases[i].1));
                } else {
                    assert(s2.track_releases[i] == (release_id, t.id));
                    assert(s1.has_track(t.id));
                }
            }
            assert(s2.refs_ok());
            assert(s2.track_releases[s1.track_releases.len() as int].0@ == release_id@);
        }
    }

    /// The state after inserting a track batch for one release, in
    /// order.
    pub open spec fn with_tracks(self, release_id: String, ts: Seq<Track>) -> StoreV
        decreases ts.len(),
    {
        if ts.len() == 0 {
            self
        } else {
            self.with_track(release_id, ts[0]).with_tracks(release_id, ts.drop_first())
        }
    }

    /// Track batch insertion processed front to back equals processing
    /// the last element after the rest.
    pub proof fn lemma_with_tracks_snoc(self, release_id: String, ts: Seq<Track>, t: Track)
        ensures
            self.with_tracks(release_id, ts.push(t)) == self.with_tracks(
                release_id,
                ts,
            ).with_track(release_id, t),
        decreases ts.len(),
    {
        let ext = ts.push(t);
        reveal_with_fuel(StoreV::with_tracks, 3);
        if ts.len() == 0 {
            assert(ext[0] == t);
            assert(ext.drop_first() =~= Seq::<Track>::empty());
        } else {
            assert(ext[0] == ts[0]);
            assert(ext.drop_first() =~= ts.drop_first().push(t));
            self.with_track(release_id, ts[0]).lemma_with_tracks_snoc(
                release_id,
                ts.drop_first(),
                t,
            );
        }
    }

    /// Track batch insertion keeps the store well-formed, touches only
    /// the track tables, and, for a non-empty batch, leaves the release
    /// with at least one associated track.
    pub proof fn lemma_with_tracks_wf(self, release_id: String, ts: Seq<Track>)
        requires
            self.wf(),
        ensures
            self.with_tracks(release_id, ts).wf(),
            ts.len() > 0 ==> self.with_tracks(release_id, ts).has_any_track_for(release_id@),
            self.with_tracks(release_id, ts).clock == self.clock,
            self.with_tracks(release_id, ts).releases == self.releases,
            self.with_tracks(release_id, ts).artists == self.artists,
            self.with_tracks(release_id, ts).artist_releases == self.artist_releases,
            self.with_tracks(release_id, ts).playlists == self.playlists,
            self.track_releases.is_prefix_of(self.with_tracks(release_id, ts).track_releases),
            self.tracks.is_prefix_of(self.with_tracks(release_id, ts).tracks),
        decreases ts.len(),
    {
        self.lemma_prefix_refl_all();
        if ts.len() > 0 {
            self.lemma_with_track_wf(release_id, ts[0]);
            let s1 = self.with_track(release_id, ts[0]);
            s1.lemma_with_tracks_wf(release_id, ts.drop_first());
            let s2 = self.with_tracks(release_id, ts);
            assert(s1.track_releases.is_prefix_of(s2.track_releases));
            assert(self.track_releases.is_prefix_of(s1.track_releases)) by {
                if s1.track_releases == self.track_releases {
                    lemma_self_prefix(self.track_releases);
                } else {
                    lemma_push_prefix(self.track_releases, (release_id, ts[0].id));
                }
            }
            assert(self.track_releases.is_prefix_of(s2.track_releases)) by {
                assert(self.track_releases.len() <= s1.track_releases.len()
                    <= s2.track_releases.len());
                assert forall|i: int| 0 <= i < self.track_releases.len() implies
                    self.track_releases[i] == s2.track_releases[i] by {
                    assert(self.track_releases[i] == s1.track_releases[i]);
                }
                assert(self.track_releases =~= s2.track_releases.subrange(
                    0,
                    self.track_releases.len() as int,
                ));
            }
            assert(self.tracks.is_prefix_of(s1.tracks)) by {
                if s1.tracks == self.tracks {
                    lemma_self_prefix(self.tracks);
                } else {
                    lemma_push_prefix(self.tracks, ts[0]);
                }
            }
            assert(self.tracks.is_prefix_of(s2.tracks)) by {
                assert(self.tracks.len() <= s1.tracks.len() <= s2.tracks.len());
                assert forall|i: int| 0 <= i < self.tracks.len() implies self.tracks[i]
                    == s2.tracks[i] by {
                    assert(self.tracks[i] == s1.tracks[i]);
                }
                assert(self.tracks =~= s2.tracks.subrange(0, self.tracks.len() as int));
            }
            assert(s2.has_any_track_for(release_id@)) by {
                let k = choose|k: int|
                    0 <= k < s1.track_releases.len() && #[trigger] s1.track_releases[k].0@
                        == release_id@;
                assert(s2.track_releases[k] == s1.track_releases[k]);
                assert(s2.track_releases[k].0@ == release_id@);
            }
        }
    }

    /// The state after marking every release in the given id list as
    /// verified; ids that match no row are ignored.
    pub open spec fn with_verified(self, ids: Seq<Seq<char>>) -> StoreV {
        StoreV {
            releases: Seq::new(
                self.releases.len(),
                |i: int|
                    if ids.contains(self.releases[i].id@) {
                        ReleaseRow { verified: true, ..self.releases[i] }
                    } else {
                        self.releases[i]
                    },
            ),
            ..self
        }
    }

    /// Marking releases verified keeps the store well-formed, provided
    /// every listed id that names a stored release has at least one
    /// associated track.
    pub proof fn lemma_with_verified_wf(self, ids: Seq<Seq<char>>)
        requires
            self.wf(),
            forall|id: Seq<char>|
                ids.contains(id) && self.has_release(id) ==> self.has_any_track_for(id),
        ensures
            self.with_verified(ids).wf(),
            self.with_verified(ids).clock == self.clock,
            self.with_verified(ids).releases.len() == self.releases.len(),
            forall|i: int|
                0 <= i < self.releases.len() ==> #[trigger] self.with_verified(ids).releases[i].id
                    == self.releases[i].id && self.with_verified(ids).releases[i].title
                    == self.releases[i].title && self.with_verified(ids).releases[i].release_type
                    == self.releases[i].release_type && self.with_verified(
                    ids,
                ).releases[i].created_at == self.releases[i].created_at,
            forall|i: int|
                0 <= i < self.releases.len() ==> (#[trigger] self.with_verified(
                    ids,
                ).releases[i].verified <==> (self.releases[i].verified || ids.contains(
                    self.releases[i].id@,
                ))),
    {
        let post = self.with_verified(ids);
        assert forall|i: int, j: int| 0 <= i < j < post.releases.len() implies post.releases[i].id@
            != post.releases[j].id@ by {
            assert(post.releases[i].id == self.releases[i].id);
            assert(post.releases[j].id == self.releases[j].id);
            assert(self.releases[i].id@ != self.releases[j].id@);
        }
        assert(post.releases_ok());
        assert forall|i: int| 0 <= i < post.releases.len() implies #[trigger] post.releases[
        i].created_at < post.clock by {
            assert(self.releases[i].created_at < self.clock);
        }
        assert(post.clock_ok());
        assert forall|i: int|
            0 <= i < post.releases.len() && #[trigger] post.releases[i].verified implies post
            .has_any_track_for(post.releases[i].id@) by {
            let id = self.releases[i].id@;
            if self.releases[i].verified {
                assert(self.has_any_track_for(id));
            } else {
                assert(ids.contains(id));
                assert(self.has_release(id));
                assert(self.has_any_track_for(id));
            }
            let k = choose|k: int|
                0 <= k < self.track_releases.len() && #[trigger] self.track_releases[k].0@ == id;
            assert(post.track_releases[k].0@ == id);
            assert(post.releases[i].id == self.releases[i].id);
        }
        assert forall|i: int| 0 <= i < post.artist_releases.len() implies post.has_release(
            #[trigger] post.artist_releases[i].1@,
        ) by {
            assert(self.has_release(self.artist_releases[i].1@));
            let k = choose|k: int| 0 <= k < self.releases.len() && #[trigger] self.releases[k].id@
                == self.artist_releases[i].1@;
            assert(post.releases[k].id == self.releases[k].id);
            assert(post.releases[k].id@ == post.artist_releases[i].1@);
        }
        assert forall|i: int| 0 <= i < post.track_releases.len() implies post.has_track(
            #[trigger] post.track_releases[i].1,
        ) by {
            assert(self.has_track(self.track_releases[i].1));
            let k = choose|k: int| 0 <= k < self.tracks.len() && #[trigger] self.tracks[k].id
                == self.track_releases[i].1;
            assert(post.tracks[k].id == post.track_releases[i].1);
        }
        assert(post.refs_ok());
    }

    /// The state after recording a playlist: a new row stamped with the
    /// current clock unless the id is already present.
    pub open spec fn with_playlist(self, p: Playlist) -> StoreV {
        if self.has_playlist(p.id) {
            self
        } else {
            StoreV {
                playlists: self.playlists.push(
                    PlaylistRow { id: p.id, name: p.name, created_at: self.clock },
                ),
                clock: (self.clock + 1) as u64,
                ..self
            }
        }
    }

    /// Recording a playlist keeps the store well-formed.
    pub proof fn lemma_with_playlist_wf(self, p: Playlist)
        requires
            self.wf(),
            self.clock < u64::MAX,
        ensures
            self.with_playlist(p).wf(),
            self.clock <= self.with_playlist(p).clock <= self.clock + 1,
            self.with_playlist(p).releases == self.releases,
            self.with_playlist(p).tracks == self.tracks,
            self.with_playlist(p).track_releases == self.track_releases,
            self.with_playlist(p).artists == self.artists,
            self.with_playlist(p).artist_releases == self.artist_releases,
    {
        if !self.has_playlist(p.id) {
            let s1 = self.with_playlist(p);
            let row = PlaylistRow { id: p.id, name: p.name, created_at: self.clock };
            assert forall|i: int, j: int| 0 <= i < j < s1.playlists.len() implies s1.playlists[
            i].id != s1.playlists[j].id by {
                if j < self.playlists.len() {
                    assert(self.playlists[i].id != self.playlists[j].id);
                } else {
                    assert(s1.playlists[j] == row);
                    assert(self.playlists[i].id != p.id);
                }
            }
            assert forall|i: int, j: int| 0 <= i < j < s1.playlists.len() implies s1.playlists[
            i].created_at < s1.playlists[j].created_at by {
                if j < self.playlists.len() {
                    assert(self.playlists[i].created_at < self.playlists[j].created_at);
                } else {
                    assert(s1.playlists[j] == row);
                    assert(self.playlists[i].created_at < self.clock);
                }
            }
            assert(s1.playlists_ok());
            assert forall|i: int| 0 <= i < s1.playlists.len() implies #[trigger] s1.playlists[
            i].created_at < s1.clock by {
                if i < self.playlists.len() {
                    assert(self.playlists[i].created_at < self.clock);
                }
            }
            assert(s1.clock_ok());
            self.lemma_refs_ok_same_tables(s1);
        }
    }
}

} // verus!
