//! The track table: batch insertion of a release's tracks with their
//! associations, and the low-water-mark selection that feeds playlist
//! generation.

use vstd::prelude::*;

use crate::models::Track;
use crate::store::Store;
use crate::store::StoreV;

verus! {

/// Inserts the tracks of one release, in order, with insert-or-ignore
/// semantics per track row and per association.
pub fn insert_batch(store: &mut Store, release_id: &String, tracks: &Vec<Track>)
    requires
        old(store)@.wf(),
    ensures
        final(store)@.wf(),
        final(store)@ == old(store)@.with_tracks(*release_id, tracks@),
{
    let n = tracks.len();
    let mut i: usize = 0;
    while i < n
        invariant
            i <= n,
            n == tracks@.len(),
            old(store)@.wf(),
            store@.wf(),
            store@ == old(store)@.with_tracks(*release_id, tracks@.take(i as int)),
        decreases n - i,
    {
        let ghost prev = store@;
        proof {
            prev.lemma_with_track_wf(*release_id, tracks@[i as int]);
        }
        let t = &tracks[i];
        let absent = crate::store::find_track(store, t.id).is_none();
        if absent {
            store.tracks.push(t.duplicate());
        }
        proof {
            assert(store@ =~= if prev.has_track(tracks@[i as int].id) {
                prev
            } else {
                StoreV { tracks: prev.tracks.push(tracks@[i as int]), ..prev }
            });
        }
        if !crate::store::contains_track_release(store, release_id.as_str(), t.id) {
            store.track_releases.push((release_id.clone(), t.id));
        }
        proof {
            assert(store@ =~= prev.with_track(*release_id, tracks@[i as int]));
            old(store)@.lemma_with_tracks_snoc(
                *release_id,
                tracks@.take(i as int),
                tracks@[i as int],
            );
            assert(tracks@.take(i as int).push(tracks@[i as int]) =~= tracks@.take(i as int + 1));
        }
        i = i + 1;
    }
    proof {
        assert(tracks@.take(n as int) =~= tracks@);
    }
}

impl StoreV {
    /// Whether a track id is selected for the next playlist: some
    /// association links it to a stored, verified release whose
    /// creation time is at or after the low-water mark. Gating on
    /// verification is deliberate: only releases confirmed to carry
    /// tracks feed playlists.
    pub open spec fn track_selected(self, track_id: i32) -> bool {
        exists|j: int|
            0 <= j < self.track_releases.len() && #[trigger] self.track_releases[j].1 == track_id
                && self.has_release(self.track_releases[j].0@) && self.release_at(
                self.track_releases[j].0@,
            ).verified && self.in_window(self.release_at(self.track_releases[j].0@).created_at)
    }

    /// The selected track ids among the first `n` track rows, in table
    /// order.
    pub open spec fn selection_upto(self, n: int) -> Seq<u32>
        decreases n,
    {
        if n <= 0 {
            Seq::empty()
        } else {
            self.selection_upto(n - 1) + if self.track_selected(self.tracks[n - 1].id) {
                seq![self.tracks[n - 1].id as u32]
            } else {
                Seq::empty()
            }
        }
    }

    /// The track ids the next playlist generation would select, in
    /// table order, one entry per stored track.
    pub open spec fn selection(self) -> Seq<u32> {
        self.selection_upto(self.tracks.len() as int)
    }

    /// If no track is selected, the selection is empty.
    pub proof fn lemma_selection_upto_empty(self, n: int)
        requires
            forall|j: int| 0 <= j < n ==> !self.track_selected(#[trigger] self.tracks[j].id),
        ensures
            self.selection_upto(n).len() == 0,
        decreases n,
    {
        if n > 0 {
            self.lemma_selection_upto_empty(n - 1);
        }
    }

    /// A non-negative track id that the selection predicate rejects
    /// never appears in the selection. Track ids are required to be
    /// non-negative so that distinct ids stay distinct in the unsigned
    /// result.
    pub proof fn lemma_selection_upto_excludes(self, n: int, track_id: i32)
        requires
            n <= self.tracks.len(),
            track_id >= 0,
            forall|j: int| 0 <= j < self.tracks.len() ==> #[trigger] self.tracks[j].id >= 0,
            !self.track_selected(track_id),
        ensures
            !self.selection_upto(n).contains(track_id as u32),
        decreases n,
    {
        if n > 0 {
            self.lemma_selection_upto_excludes(n - 1, track_id);
            let whole = self.selection_upto(n);
            let head = self.selection_upto(n - 1);
            if whole.contains(track_id as u32) {
                let k = choose|k: int| 0 <= k < whole.len() && whole[k] == track_id as u32;
                if k < head.len() {
                    assert(head[k] == track_id as u32);
                    assert(head.contains(track_id as u32));
                } else {
                    assert(self.track_selected(self.tracks[n - 1].id));
                    assert(self.tracks[n - 1].id >= 0);
                    assert(self.tracks[n - 1].id as u32 == track_id as u32);
                    assert(self.tracks[n - 1].id == track_id);
                }
            }
        }
    }
}

/// Checks whether a creation time is at or after the low-water mark.
fn in_window_exec(store: &Store, created_at: u64) -> (r: bool)
    ensures
        r == store@.in_window(created_at),
{
    let m = store.playlists.len();
    if m == 0 {
        true
    } else {
        created_at >= store.playlists[m - 1].created_at
    }
}

/// Checks whether a track id is selected for the next playlist.
fn is_selected(store: &Store, track_id: i32) -> (r: bool)
    requires
        store@.wf(),
    ensures
        r == store@.track_selected(track_id),
{
    let n = store.track_releases.len();
    let mut j: usize = 0;
    while j < n
        invariant
            j <= n,
            n == store@.track_releases.len(),
            store@.wf(),
            forall|k: int|
                0 <= k < j ==> !(#[trigger] store@.track_releases[k].1 == track_id
                    && store@.has_release(store@.track_releases[k].0@) && store@.release_at(
                    store@.track_releases[k].0@,
                ).verified && store@.in_window(
                    store@.release_at(store@.track_releases[k].0@).created_at,
                )),
        decreases n - j,
    {
        if store.track_releases[j].1 == track_id {
            let found = crate::store::find_release(store, store.track_releases[j].0.as_str());
            match found {
                Some(ri) => {
                    proof {
                        store@.lemma_release_at_unique(store@.track_releases[j as int].0@,
                            ri as int);
                    }
                    if store.releases[ri].verified && in_window_exec(
                        store,
                        store.releases[ri].created_at,
                    ) {
                        proof {
                            assert(store@.track_releases[j as int].1 == track_id
                                && store@.has_release(store@.track_releases[j as int].0@)
                                && store@.release_at(store@.track_releases[j as int].0@).verified
                                && store@.in_window(
                                store@.release_at(store@.track_releases[j as int].0@).created_at,
                            ));
                        }
                        return true;
                    }
                },
                None => {
                },
            }
        }
        j = j + 1;
    }
    false
}

/// Returns the track ids eligible for the next playlist: those whose
/// release was created at or after the most recent playlist and was
/// verified to carry tracks. Track ids are catalog-assigned and
/// non-negative; the selection requires this of the tracks it returns
/// so they fit the unsigned id type the playlist call takes.
pub fn get_latest(store: &Store) -> (r: Vec<u32>)
    requires
        store@.wf(),
        forall|j: int|
            0 <= j < store@.tracks.len() && store@.track_selected(#[trigger] store@.tracks[j].id)
                ==> store@.tracks[j].id >= 0,
    ensures
        r@ == store@.selection(),
{
    let n = store.tracks.len();
    let mut out: Vec<u32> = Vec::new();
    let mut i: usize = 0;
    while i < n
        invariant
            i <= n,
            n == store@.tracks.len(),
            store@.wf(),
            forall|j: int|
                0 <= j < store@.tracks.len() && store@.track_selected(
                    #[trigger] store@.tracks[j].id,
                ) ==> store@.tracks[j].id >= 0,
            out@ =~= store@.selection_upto(i as int),
        decreases n - i,
    {
        if is_selected(store, store.tracks[i].id) {
            proof {
                assert(store@.tracks[i as int].id >= 0);
            }
            out.push(store.tracks[i].id as u32);
        }
        proof {
            assert(out@ =~= store@.selection_upto(i as int + 1));
        }
        i = i + 1;
    }
    out
}

} // verus!
