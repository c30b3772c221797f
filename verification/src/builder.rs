//! The playlist builder: selects the tracks eligible since the last
//! playlist and plans a new, dated playlist. The caller performs the
//! remote creation call between planning and recording, so no local
//! playlist row is written unless the remote call succeeded.

use vstd::prelude::*;

use crate::playlists::Playlist;
use crate::store::PlaylistRow;
use crate::store::Store;
use crate::store::StoreV;

verus! {

/// Relies on chrono's `Local::now`: the current local calendar date,
/// rendered as a year-month-day string. The result depends on the
/// clock, so nothing is promised of it.
#[verifier::external_body]
fn local_date_name() -> String {
    chrono::Local::now().date_naive().to_string()
}

/// Plans a playlist generation run: selects the eligible track ids and
/// names the playlist after the current local date. Returns `None`
/// when no track is eligible; the caller then skips playlist creation
/// and writes nothing. Track ids are catalog-assigned and
/// non-negative; the selection requires this of the tracks it would
/// return.
pub fn gen_playlist_plan(store: &Store) -> (r: Option<(String, Vec<u32>)>)
    requires
        store@.wf(),
        forall|j: int|
            0 <= j < store@.tracks.len() && store@.track_selected(#[trigger] store@.tracks[j].id)
                ==> store@.tracks[j].id >= 0,
    ensures
        match r {
            None => store@.selection().len() == 0,
            Some(p) => p.1@ == store@.selection() && store@.selection().len() > 0,
        },
{
    let track_ids = crate::tracks::get_latest(store);
    if track_ids.len() == 0 {
        None
    } else {
        let name = local_date_name();
        Some((name, track_ids))
    }
}

/// The playlist window closes once a playlist is recorded: a
/// generation run immediately after sees every stored release created
/// strictly before the new playlist's creation time, so it selects
/// nothing and writes nothing.
pub proof fn lemma_playlist_window(s: StoreV, p: Playlist)
    requires
        s.wf(),
        s.clock < u64::MAX,
        !s.has_playlist(p.id),
    ensures
        s.with_playlist(p).selection().len() == 0,
{
    let s1 = s.with_playlist(p);
    s.lemma_with_playlist_wf(p);
    let row = PlaylistRow { id: p.id, name: p.name, created_at: s.clock };
    assert(s1.playlists == s.playlists.push(row));
    assert(s1.playlists.last() == row);
    assert(s1.latest_mark() == s.clock);
    assert forall|j: int| 0 <= j < s1.tracks.len() implies !s1.track_selected(
        #[trigger] s1.tracks[j].id,
    ) by {
        if s1.track_selected(s1.tracks[j].id) {
            let k = choose|k: int|
                0 <= k < s1.track_releases.len() && #[trigger] s1.track_releases[k].1
                    == s1.tracks[j].id && s1.has_release(s1.track_releases[k].0@)
                    && s1.release_at(s1.track_releases[k].0@).verified && s1.in_window(
                    s1.release_at(s1.track_releases[k].0@).created_at,
                );
            let rid = s1.track_releases[k].0@;
            let i = s1.release_index(rid);
            assert(0 <= i < s1.releases.len() && s1.releases[i].id@ == rid);
            assert(s.releases[i].created_at < s.clock);
            assert(s1.release_at(rid).created_at < s1.latest_mark());
            assert(s1.playlists.len() > 0);
            assert(!s1.in_window(s1.release_at(rid).created_at));
        }
    }
    s1.lemma_selection_upto_empty(s1.tracks.len() as int);
}

/// Playlist membership is monotonic: a track all of whose releases
/// were created strictly before the latest playlist's creation time is
/// never selected by a later generation run. Track ids are
/// catalog-assigned and non-negative.
pub proof fn lemma_monotonic_membership(s: StoreV, track_id: i32)
    requires
        s.wf(),
        track_id >= 0,
        forall|j: int| 0 <= j < s.tracks.len() ==> #[trigger] s.tracks[j].id >= 0,
        s.playlists.len() > 0,
        forall|k: int|
            0 <= k < s.track_releases.len() && #[trigger] s.track_releases[k].1 == track_id
                && s.has_release(s.track_releases[k].0@) ==> s.release_at(
                s.track_releases[k].0@,
            ).created_at < s.latest_mark(),
    ensures
        !s.selection().contains(track_id as u32),
{
    assert(!s.track_selected(track_id)) by {
        if s.track_selected(track_id) {
            let k = choose|k: int|
                0 <= k < s.track_releases.len() && #[trigger] s.track_releases[k].1 == track_id
                    && s.has_release(s.track_releases[k].0@) && s.release_at(
                    s.track_releases[k].0@,
                ).verified && s.in_window(s.release_at(s.track_releases[k].0@).created_at);
            assert(s.release_at(s.track_releases[k].0@).created_at < s.latest_mark());
            assert(!s.in_window(s.release_at(s.track_releases[k].0@).created_at));
        }
    }
    s.lemma_selection_upto_excludes(s.tracks.len() as int, track_id);
}

} // verus!
