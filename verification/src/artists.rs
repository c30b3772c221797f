//! The artist table: upsert-by-id and the read operations the engine
//! and the listings use.

use vstd::prelude::*;

use crate::store::Store;
use crate::strutil;

verus! {

/// One stored artist. Unique by `id`; the id is assigned by the catalog
/// and never changes.
pub struct Artist {
    pub id: u32,
    pub name: String,
}

impl Artist {
    /// A field-for-field copy.
    pub fn duplicate(&self) -> (a: Artist)
        ensures
            a == *self,
    {
        Artist { id: self.id, name: self.name.clone() }
    }
}

/// Inserts an artist unless its id is already present; the existing row
/// wins, so a renamed artist keeps its first-seen name.
pub fn insert(store: &mut Store, artist: &Artist)
    requires
        old(store)@.wf(),
    ensures
        final(store)@.wf(),
        final(store)@ == old(store)@.with_artist(*artist),
{
    proof {
        old(store)@.lemma_with_artist_wf(*artist);
    }
    let found = crate::store::find_artist(store, artist.id);
    if found.is_none() {
        store.artists.push(artist.duplicate());
        proof {
            assert(store@ =~= old(store)@.with_artist(*artist));
            assert(store@ == old(store)@.with_artist(*artist));
        }
    }
}

/// Returns the stored name of the artist with the given id, if any.
pub fn get_by_id(store: &Store, artist_id: u32) -> (r: Option<String>)
    requires
        store@.wf(),
    ensures
        match r {
            Some(name) => store@.has_artist(artist_id) && store@.artist_at(artist_id).name
                == name,
            None => !store@.has_artist(artist_id),
        },
{
    let n = store.artists.len();
    let mut i: usize = 0;
    while i < n
        invariant
            i <= n,
            n == store.artists@.len(),
            store@.wf(),
            forall|j: int| 0 <= j < i ==> store.artists@[j].id != artist_id,
        decreases n - i,
    {
        if store.artists[i].id == artist_id {
            proof {
                store@.lemma_artist_at_unique(artist_id, i as int);
            }
            return Some(store.artists[i].name.clone());
        }
        i = i + 1;
    }
    None
}

/// Returns a copy of every stored artist, in insertion order.
pub fn get_all(store: &Store) -> (r: Vec<Artist>)
    ensures
        r@ == store.artists@,
{
    let n = store.artists.len();
    let mut out: Vec<Artist> = Vec::new();
    let mut i: usize = 0;
    while i < n
        invariant
            i <= n,
            n == store.artists@.len(),
            out@ =~= store.artists@.take(i as int),
        decreases n - i,
    {
        out.push(store.artists[i].duplicate());
        i = i + 1;
    }
    proof {
        assert(out@ =~= store.artists@);
    }
    out
}

/// The id of the first stored artist whose name matches the search
/// string, compared case-insensitively after trimming surrounding
/// whitespace from the search string. The search string is taken
/// literally; no pattern syntax is interpreted.
pub fn get_id_by_name(store: &Store, artist: &str) -> (r: Option<u32>)
    requires
        store@.wf(),
    ensures
        match r {
            Some(id) => exists|i: int|
                0 <= i < store.artists@.len() && #[trigger] store.artists@[i].id == id
                    && strutil::fold_key(store.artists@[i].name@) == strutil::fold_key(
                    strutil::trimmed(artist@),
                ) && forall|j: int|
                    0 <= j < i ==> strutil::fold_key(#[trigger] store.artists@[j].name@)
                        != strutil::fold_key(strutil::trimmed(artist@)),
            None => forall|i: int|
                0 <= i < store.artists@.len() ==> strutil::fold_key(
                    #[trigger] store.artists@[i].name@,
                ) != strutil::fold_key(strutil::trimmed(artist@)),
        },
{
    let needle = strutil::trim(artist);
    let n = store.artists.len();
    let mut i: usize = 0;
    while i < n
        invariant
            i <= n,
            n == store.artists@.len(),
            needle@ == strutil::trimmed(artist@),
            forall|j: int|
                0 <= j < i ==> strutil::fold_key(#[trigger] store.artists@[j].name@)
                    != strutil::fold_key(strutil::trimmed(artist@)),
        decreases n - i,
    {
        if strutil::eq_fold(store.artists[i].name.as_str(), needle) {
            return Some(store.artists[i].id);
        }
        i = i + 1;
    }
    None
}

} // verus!
