//! The release table: batch insertion of candidate releases with their
//! artist associations, the per-artist id listing the diff builds on,
//! and batch verification of confirmed releases.

use vstd::pervasive::VecAdditionalExecFns;
use vstd::prelude::*;

use crate::release_type::ReleaseType;
use crate::store::ReleaseRow;
use crate::store::Store;
use crate::store::StoreV;
use crate::strutil;

verus! {

/// One release as the engine passes it around: the catalog id, the
/// title and the reported kind.
pub struct Release {
    pub id: String,
    pub title: String,
    pub release_type: ReleaseType,
}

impl Release {
    /// A field-for-field copy.
    pub fn duplicate(&self) -> (r: Release)
        ensures
            r == *self,
    {
        Release {
            id: self.id.clone(),
            title: self.title.clone(),
            release_type: self.release_type,
        }
    }
}

/// Inserts a batch of releases for one artist, in order, with
/// insert-or-ignore semantics per release row and per association.
pub fn insert_batch(store: &mut Store, artist_id: u32, releases: &Vec<Release>)
    requires
        old(store)@.wf(),
        old(store)@.clock + releases@.len() <= u64::MAX,
    ensures
        final(store)@.wf(),
        final(store)@ == old(store)@.with_releases(artist_id, releases@),
{
    let n = releases.len();
    let mut i: usize = 0;
    while i < n
        invariant
            i <= n,
            n == releases@.len(),
            old(store)@.wf(),
            old(store)@.clock + n <= u64::MAX,
            store@.wf(),
            store@ == old(store)@.with_releases(artist_id, releases@.take(i as int)),
            store@.clock <= old(store)@.clock + i,
        decreases n - i,
    {
        let ghost prev = store@;
        proof {
            prev.lemma_with_release_wf(artist_id, releases@[i as int]);
        }
        let r = &releases[i];
        let absent = crate::store::find_release(store, r.id.as_str()).is_none();
        if absent {
            let row = ReleaseRow {
                id: r.id.clone(),
                title: r.title.clone(),
                release_type: r.release_type,
                created_at: store.clock,
                verified: false,
            };
            store.releases.push(row);
            store.clock = store.clock + 1;
        }
        proof {
            assert(store@ =~= if prev.has_release(releases@[i as int].id@) {
                prev
            } else {
                StoreV {
                    releases: prev.releases.push(
                        ReleaseRow {
                            id: releases@[i as int].id,
                            title: releases@[i as int].title,
                            release_type: releases@[i as int].release_type,
                            created_at: prev.clock,
                            verified: false,
                        },
                    ),
                    clock: (prev.clock + 1) as u64,
                    ..prev
                }
            });
        }
        if !crate::store::contains_artist_release(store, artist_id, r.id.as_str()) {
            store.artist_releases.push((artist_id, r.id.clone()));
        }
        proof {
            assert(store@ =~= prev.with_release(artist_id, releases@[i as int]));
            old(store)@.lemma_with_releases_snoc(
                artist_id,
                releases@.take(i as int),
                releases@[i as int],
            );
            assert(releases@.take(i as int).push(releases@[i as int]) =~= releases@.take(
                i as int + 1,
            ));
        }
        i = i + 1;
    }
    proof {
        assert(releases@.take(n as int) =~= releases@);
    }
}

impl StoreV {
    /// The release ids associated with an artist among the first `n`
    /// association rows, in table order.
    pub open spec fn ids_for_upto(self, artist_id: u32, n: int) -> Seq<Seq<char>>
        decreases n,
    {
        if n <= 0 {
            Seq::empty()
        } else {
            self.ids_for_upto(artist_id, n - 1) + if self.artist_releases[n - 1].0 == artist_id {
                seq![self.artist_releases[n - 1].1@]
            } else {
                Seq::empty()
            }
        }
    }

    /// The release ids associated with an artist, in table order.
    pub open spec fn ids_for(self, artist_id: u32) -> Seq<Seq<char>> {
        self.ids_for_upto(artist_id, self.artist_releases.len() as int)
    }

    /// An id is listed for an artist exactly when the association is
    /// recorded.
    pub proof fn lemma_ids_for_contains(self, artist_id: u32)
        ensures
            forall|id: Seq<char>| #[trigger]
                self.ids_for(artist_id).contains(id) <==> self.has_artist_release(artist_id, id),
    {
        self.lemma_ids_for_upto_contains(artist_id, self.artist_releases.len() as int);
        assert forall|id: Seq<char>| #[trigger]
            self.ids_for(artist_id).contains(id) <==> self.has_artist_release(artist_id, id) by {
            if self.has_artist_release(artist_id, id) {
                let k = choose|k: int|
                    0 <= k < self.artist_releases.len() && #[trigger] self.artist_releases[k].0
                        == artist_id && self.artist_releases[k].1@ == id;
                assert(exists|k: int|
                    0 <= k < self.artist_releases.len() && #[trigger] self.artist_releases[k].0
                        == artist_id && self.artist_releases[k].1@ == id);
            }
        }
    }

    proof fn lemma_ids_for_upto_contains(self, artist_id: u32, n: int)
        requires
            0 <= n <= self.artist_releases.len(),
        ensures
            forall|id: Seq<char>| #[trigger]
                self.ids_for_upto(artist_id, n).contains(id) <==> exists|k: int|
                    0 <= k < n && #[trigger] self.artist_releases[k].0 == artist_id
                        && self.artist_releases[k].1@ == id,
        decreases n,
    {
        if n > 0 {
            self.lemma_ids_for_upto_contains(artist_id, n - 1);
            let whole = self.ids_for_upto(artist_id, n);
            let head = self.ids_for_upto(artist_id, n - 1);
            assert forall|id: Seq<char>| #[trigger] whole.contains(id) implies exists|k: int|
                0 <= k < n && #[trigger] self.artist_releases[k].0 == artist_id
                    && self.artist_releases[k].1@ == id by {
                let j = choose|j: int| 0 <= j < whole.len() && whole[j] == id;
                if j < head.len() {
                    assert(head[j] == id);
                    assert(head.contains(id));
                } else {
                    assert(self.artist_releases[n - 1].0 == artist_id);
                    assert(self.artist_releases[n - 1].1@ == id);
                }
            }
            assert forall|id: Seq<char>|
                (exists|k: int|
                    0 <= k < n && #[trigger] self.artist_releases[k].0 == artist_id
                        && self.artist_releases[k].1@ == id) implies #[trigger] whole.contains(
                id,
            ) by {
                let k = choose|k: int|
                    0 <= k < n && #[trigger] self.artist_releases[k].0 == artist_id
                        && self.artist_releases[k].1@ == id;
                if k < n - 1 {
                    assert(head.contains(id));
                    let j = choose|j: int| 0 <= j < head.len() && head[j] == id;
                    assert(whole[j] == id);
                } else {
                    assert(whole[whole.len() - 1] == id);
                }
            }
        }
    }
}

/// Returns the release ids associated with an artist, in table order.
pub fn get_all_ids_for_artist(store: &Store, artist_id: u32) -> (r: Vec<String>)
    ensures
        strutil::str_views(r@) == store@.ids_for(artist_id),
{
    let n = store.artist_releases.len();
    let mut out: Vec<String> = Vec::new();
    let mut i: usize = 0;
    while i < n
        invariant
            i <= n,
            n == store@.artist_releases.len(),
            strutil::str_views(out@) =~= store@.ids_for_upto(artist_id, i as int),
        decreases n - i,
    {
        if store.artist_releases[i].0 == artist_id {
            out.push(store.artist_releases[i].1.clone());
        }
        proof {
            assert(strutil::str_views(out@) =~= store@.ids_for_upto(artist_id, i as int + 1));
        }
        i = i + 1;
    }
    out
}

/// Marks every release whose id appears in the list as verified; ids
/// matching no stored release are ignored. A release may only be
/// verified once a track association exists for it.
pub fn bulk_verify(store: &mut Store, release_ids: &Vec<String>)
    requires
        old(store)@.wf(),
        forall|id: Seq<char>|
            strutil::str_views(release_ids@).contains(id) && old(store)@.has_release(id) ==> old(
                store,
            )@.has_any_track_for(id),
    ensures
        final(store)@.wf(),
        final(store)@ == old(store)@.with_verified(strutil::str_views(release_ids@)),
{
    let ghost ids = strutil::str_views(release_ids@);
    let ghost target = old(store)@.with_verified(ids);
    proof {
        old(store)@.lemma_with_verified_wf(ids);
    }
    let n = store.releases.len();
    let mut i: usize = 0;
    while i < n
        invariant
            i <= n,
            n == store@.releases.len(),
            n == old(store)@.releases.len(),
            ids == strutil::str_views(release_ids@),
            target == old(store)@.with_verified(ids),
            target.releases.len() == n,
            store@.artists == old(store)@.artists,
            store@.artist_releases == old(store)@.artist_releases,
            store@.tracks == old(store)@.tracks,
            store@.track_releases == old(store)@.track_releases,
            store@.playlists == old(store)@.playlists,
            store@.clock == old(store)@.clock,
            forall|j: int| 0 <= j < i ==> store@.releases[j] == target.releases[j],
            forall|j: int| i <= j < n ==> store@.releases[j] == old(store)@.releases[j],
        decreases n - i,
    {
        if strutil::contains_str(release_ids, store.releases[i].id.as_str()) {
            let row = ReleaseRow {
                id: store.releases[i].id.clone(),
                title: store.releases[i].title.clone(),
                release_type: store.releases[i].release_type,
                created_at: store.releases[i].created_at,
                verified: true,
            };
            store.releases.set(i, row);
            proof {
                assert(store@.releases[i as int] == target.releases[i as int]);
            }
        } else {
            proof {
                assert(store@.releases[i as int] == target.releases[i as int]);
            }
        }
        i = i + 1;
    }
    proof {
        assert(store@.releases =~= target.releases);
        assert(store@ =~= target);
    }
}

} // verus!
