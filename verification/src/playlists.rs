//! The playlist table: one row per generation run, whose creation time
//! becomes the low-water mark for the next run's track selection.

use vstd::prelude::*;

use crate::store::Store;

verus! {

/// One playlist: the id assigned by the remote service and the dated
/// name it was created under.
pub struct Playlist {
    pub id: u32,
    pub name: String,
}

impl Playlist {
    /// A field-for-field copy.
    pub fn duplicate(&self) -> (p: Playlist)
        ensures
            p == *self,
    {
        Playlist { id: self.id, name: self.name.clone() }
    }
}

/// Records a playlist unless its id is already present; the new row is
/// stamped with the current clock, which then advances, so the row
/// becomes the new low-water mark.
pub fn insert(store: &mut Store, playlist: &Playlist)
    requires
        old(store)@.wf(),
        old(store)@.clock < u64::MAX,
    ensures
        final(store)@.wf(),
        final(store)@ == old(store)@.with_playlist(*playlist),
{
    proof {
        old(store)@.lemma_with_playlist_wf(*playlist);
    }
    let found = crate::store::find_playlist(store, playlist.id);
    if found.is_none() {
        let row = crate::store::PlaylistRow {
            id: playlist.id,
            name: playlist.name.clone(),
            created_at: store.clock,
        };
        store.playlists.push(row);
        store.clock = store.clock + 1;
        proof {
            assert(store@ =~= old(store)@.with_playlist(*playlist));
        }
    }
}

} // verus!
