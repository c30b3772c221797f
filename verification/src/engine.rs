//! The reconciliation engine: loading an artist's discography into the
//! store, diffing a fresh catalog snapshot against the locally known
//! release ids, and committing fetched track listings while filtering
//! out phantom releases that carry no tracks.

use vstd::prelude::*;

use crate::artists::Artist;
use crate::models::ArtistPage;
use crate::models::ArtistRelease;
use crate::models::Track;
use crate::releases::Release;
use crate::store::Store;
use crate::store::StoreV;
use crate::strutil;

verus! {

/// The releases of one kind group as engine rows: each entry carries
/// the group's reported kind.
pub open spec fn group_entries(g: ArtistRelease) -> Seq<Release> {
    g.items@.map_values(
        |r: crate::models::Release|
            Release { id: r.id, title: r.title, release_type: g.release_type },
    )
}

/// All releases of an artist page, flattened in page order.
pub open spec fn flat_entries(groups: Seq<ArtistRelease>) -> Seq<Release>
    decreases groups.len(),
{
    if groups.len() == 0 {
        Seq::empty()
    } else {
        group_entries(groups[0]) + flat_entries(groups.drop_first())
    }
}

proof fn lemma_flat_entries_snoc(groups: Seq<ArtistRelease>, g: ArtistRelease)
    ensures
        flat_entries(groups.push(g)) == flat_entries(groups) + group_entries(g),
    decreases groups.len(),
{
    let ext = groups.push(g);
    reveal_with_fuel(flat_entries, 3);
    if groups.len() == 0 {
        assert(ext[0] == g);
        assert(ext.drop_first() =~= Seq::<ArtistRelease>::empty());
        assert(flat_entries(ext) =~= flat_entries(groups) + group_entries(g));
    } else {
        assert(ext[0] == groups[0]);
        assert(ext.drop_first() =~= groups.drop_first().push(g));
        lemma_flat_entries_snoc(groups.drop_first(), g);
        assert(group_entries(groups[0]) + (flat_entries(groups.drop_first()) + group_entries(g))
            =~= (group_entries(groups[0]) + flat_entries(groups.drop_first())) + group_entries(g));
    }
}

/// Flattens an artist page into engine rows, in page order.
pub fn flatten_page(page: &ArtistPage) -> (v: Vec<Release>)
    ensures
        v@ == flat_entries(page.releases@),
{
    let mut out: Vec<Release> = Vec::new();
    let gn = page.releases.len();
    let mut g: usize = 0;
    while g < gn
        invariant
            g <= gn,
            gn == page.releases@.len(),
            out@ == flat_entries(page.releases@.take(g as int)),
        decreases gn - g,
    {
        let group = &page.releases[g];
        let kn = group.items.len();
        let mut k: usize = 0;
        while k < kn
            invariant
                k <= kn,
                g < gn,
                gn == page.releases@.len(),
                kn == group.items@.len(),
                group == &page.releases@[g as int],
                out@ == flat_entries(page.releases@.take(g as int)) + group_entries(
                    page.releases@[g as int],
                ).take(k as int),
            decreases kn - k,
        {
            let item = &group.items[k];
            out.push(
                Release {
                    id: item.id.clone(),
                    title: item.title.clone(),
                    release_type: group.release_type,
                },
            );
            proof {
                assert(group_entries(page.releases@[g as int])[k as int] == Release {
                    id: page.releases@[g as int].items@[k as int].id,
                    title: page.releases@[g as int].items@[k as int].title,
                    release_type: page.releases@[g as int].release_type,
                });
                assert(out@ =~= flat_entries(page.releases@.take(g as int)) + group_entries(
                    page.releases@[g as int],
                ).take(k as int + 1));
            }
            k = k + 1;
        }
        proof {
            assert(group_entries(page.releases@[g as int]).take(kn as int) =~= group_entries(
                page.releases@[g as int],
            ));
            lemma_flat_entries_snoc(page.releases@.take(g as int), page.releases@[g as int]);
            assert(page.releases@.take(g as int).push(page.releases@[g as int]) =~= page.releases@
                .take(g as int + 1));
        }
        g = g + 1;
    }
    proof {
        assert(page.releases@.take(gn as int) =~= page.releases@);
    }
    out
}

/// The store after loading an artist page: the artist is upserted and
/// every listed release is inserted unverified, associated with the
/// artist.
pub open spec fn load_result(s: StoreV, page: ArtistPage) -> StoreV {
    s.with_artist(Artist { id: page.id, name: page.name.display }).with_releases(
        page.id,
        flat_entries(page.releases@),
    )
}

/// Loads an artist's discography snapshot into the store: upserts the
/// artist record and inserts all listed releases as unverified rows
/// associated with the artist. Returns the number of releases the page
/// listed. Re-running with an unchanged snapshot changes nothing; see
/// [`lemma_load_idempotent`].
pub fn load_artist(store: &mut Store, page: &ArtistPage) -> (n: usize)
    requires
        old(store)@.wf(),
        old(store)@.clock + flat_entries(page.releases@).len() <= u64::MAX,
    ensures
        final(store)@.wf(),
        final(store)@ == load_result(old(store)@, *page),
        n == flat_entries(page.releases@).len(),
{
    proof {
        old(store)@.lemma_with_artist_wf(Artist { id: page.id, name: page.name.display });
    }
    let artist = Artist { id: page.id, name: page.name.display.clone() };
    crate::artists::insert(store, &artist);
    let rels = flatten_page(page);
    let num = rels.len();
    proof {
        let mid = old(store)@.with_artist(Artist { id: page.id, name: page.name.display });
        assert(mid.clock == old(store)@.clock);
        mid.lemma_with_releases_wf(page.id, rels@);
    }
    crate::releases::insert_batch(store, page.id, &rels);
    num
}

impl StoreV {
    /// The set of release ids already associated with an artist.
    pub open spec fn known_ids(self, artist_id: u32) -> Set<Seq<char>> {
        Set::new(|id: Seq<char>| self.has_artist_release(artist_id, id))
    }
}

/// The set of release ids occurring in a list of engine rows.
pub open spec fn entry_ids(entries: Seq<Release>) -> Set<Seq<char>> {
    Set::new(
        |id: Seq<char>|
            exists|k: int| 0 <= k < entries.len() && (#[trigger] entries[k]).id@ == id,
    )
}

/// The candidate releases of a snapshot against a set of known ids:
/// the entries whose id is neither known nor already listed by an
/// earlier entry, in discovery order. For a duplicated id the first
/// occurrence wins.
pub open spec fn plan_from(entries: Seq<Release>, known: Set<Seq<char>>) -> Seq<Release>
    decreases entries.len(),
{
    if entries.len() == 0 {
        Seq::empty()
    } else if known.contains(entries[0].id@) {
        plan_from(entries.drop_first(), known)
    } else {
        seq![entries[0]] + plan_from(entries.drop_first(), known.insert(entries[0].id@))
    }
}

/// The candidates are exactly the remote ids minus the known ids: for
/// every remote snapshot R and known set K, the planned ids are R \ K.
pub proof fn lemma_plan_is_diff(entries: Seq<Release>, known: Set<Seq<char>>)
    ensures
        forall|id: Seq<char>| #[trigger]
            entry_ids(plan_from(entries, known)).contains(id) <==> (entry_ids(entries).contains(
                id,
            ) && !known.contains(id)),
    decreases entries.len(),
{
    let plan = plan_from(entries, known);
    if entries.len() == 0 {
    } else {
        let e0 = entries[0];
        let rest = entries.drop_first();
        if known.contains(e0.id@) {
            lemma_plan_is_diff(rest, known);
            assert(plan == plan_from(rest, known));
            assert forall|id: Seq<char>| #[trigger]
                entry_ids(plan).contains(id) <==> (entry_ids(entries).contains(id)
                    && !known.contains(id)) by {
                if entry_ids(plan).contains(id) {
                    assert(entry_ids(plan_from(rest, known)).contains(id));
                    assert(entry_ids(rest).contains(id) && !known.contains(id));
                    let k = choose|k: int| 0 <= k < rest.len() && (#[trigger] rest[k]).id@ == id;
                    assert(entries[k + 1].id@ == id);
                }
                if entry_ids(entries).contains(id) && !known.contains(id) {
                    let k = choose|k: int|
                        0 <= k < entries.len() && (#[trigger] entries[k]).id@ == id;
                    assert(k != 0);
                    assert(rest[k - 1].id@ == id);
                    assert(entry_ids(rest).contains(id));
                    assert(entry_ids(plan_from(rest, known)).contains(id));
                }
            }
        } else {
            let known2 = known.insert(e0.id@);
            let planr = plan_from(rest, known2);
            lemma_plan_is_diff(rest, known2);
            assert(plan == seq![e0] + planr);
            assert forall|id: Seq<char>| #[trigger]
                entry_ids(plan).contains(id) <==> (entry_ids(entries).contains(id)
                    && !known.contains(id)) by {
                if entry_ids(plan).contains(id) {
                    let k = choose|k: int| 0 <= k < plan.len() && (#[trigger] plan[k]).id@ == id;
                    if k == 0 {
                        assert(plan[0] == e0);
                        assert(entries[0].id@ == id);
                        assert(entry_ids(entries).contains(id));
                    } else {
                        assert(planr[k - 1].id@ == id);
                        assert(entry_ids(planr).contains(id));
                        assert(entry_ids(plan_from(rest, known2)).contains(id));
                        assert(entry_ids(rest).contains(id) && !known2.contains(id));
                        let j = choose|j: int| 0 <= j < rest.len() && (#[trigger] rest[j]).id@
                            == id;
                        assert(entries[j + 1].id@ == id);
                        assert(entry_ids(entries).contains(id));
                    }
                }
                if entry_ids(entries).contains(id) && !known.contains(id) {
                    if id == e0.id@ {
                        assert(plan[0] == e0);
                        assert(plan[0].id@ == id);
                        assert(entry_ids(plan).contains(id));
                    } else {
                        let k = choose|k: int|
                            0 <= k < entries.len() && (#[trigger] entries[k]).id@ == id;
                        assert(k != 0);
                        assert(rest[k - 1].id@ == id);
                        assert(entry_ids(rest).contains(id));
                        assert(!known2.contains(id));
                        assert(entry_ids(plan_from(rest, known2)).contains(id));
                        assert(entry_ids(planr).contains(id));
                        let j = choose|j: int| 0 <= j < planr.len() && (#[trigger] planr[j]).id@
                            == id;
                        assert(plan[j + 1].id@ == id);
                        assert(entry_ids(plan).contains(id));
                    }
                }
            }
        }
    }
}

/// The planned candidates carry pairwise-distinct release ids: the
/// first occurrence of a duplicated id wins and later ones are
/// dropped.
pub proof fn lemma_plan_ids_distinct(entries: Seq<Release>, known: Set<Seq<char>>)
    ensures
        forall|i: int, j: int|
            #![trigger plan_from(entries, known)[i], plan_from(entries, known)[j]]
            0 <= i < j < plan_from(entries, known).len() ==> plan_from(entries, known)[i].id@
                != plan_from(entries, known)[j].id@,
    decreases entries.len(),
{
    let plan = plan_from(entries, known);
    if entries.len() > 0 {
        let e0 = entries[0];
        let rest = entries.drop_first();
        if known.contains(e0.id@) {
            lemma_plan_ids_distinct(rest, known);
            assert(plan == plan_from(rest, known));
        } else {
            let known2 = known.insert(e0.id@);
            let planr = plan_from(rest, known2);
            lemma_plan_ids_distinct(rest, known2);
            lemma_plan_is_diff(rest, known2);
            assert(plan == seq![e0] + planr);
            assert forall|i: int, j: int|
                #![trigger plan[i], plan[j]]
                0 <= i < j < plan.len() implies plan[i].id@ != plan[j].id@ by {
                if i == 0 {
                    assert(plan[0] == e0);
                    assert(plan[j] == planr[j - 1]);
                    if planr[j - 1].id@ == e0.id@ {
                        assert(entry_ids(planr).contains(e0.id@));
                        assert(entry_ids(plan_from(rest, known2)).contains(e0.id@));
                        assert(!known2.contains(e0.id@));
                        assert(false);
                    }
                } else {
                    assert(plan[i] == planr[i - 1]);
                    assert(plan[j] == planr[j - 1]);
                }
            }
        }
    }
}

proof fn lemma_entry_ids_push(cs: Seq<Release>, r: Release)
    ensures
        entry_ids(cs.push(r)) =~= entry_ids(cs).insert(r.id@),
{
    let ext = cs.push(r);
    assert forall|id: Seq<char>| #[trigger]
        entry_ids(ext).contains(id) implies entry_ids(cs).insert(r.id@).contains(id) by {
        let k = choose|k: int| 0 <= k < ext.len() && (#[trigger] ext[k]).id@ == id;
        if k < cs.len() {
            assert(cs[k].id@ == id);
            assert(entry_ids(cs).contains(id));
        } else {
            assert(ext[k] == r);
        }
    }
    assert forall|id: Seq<char>| #[trigger]
        entry_ids(cs).insert(r.id@).contains(id) implies entry_ids(ext).contains(id) by {
        if id == r.id@ {
            assert(ext[cs.len() as int].id@ == id);
        } else {
            let k = choose|k: int| 0 <= k < cs.len() && (#[trigger] cs[k]).id@ == id;
            assert(ext[k].id@ == id);
        }
    }
}

/// Checks whether a list of engine rows contains a release with the
/// given id.
fn contains_release_id(rs: &Vec<Release>, id: &str) -> (r: bool)
    ensures
        r == entry_ids(rs@).contains(id@),
{
    let n = rs.len();
    let mut i: usize = 0;
    while i < n
        invariant
            i <= n,
            n == rs@.len(),
            forall|j: int| 0 <= j < i ==> (#[trigger] rs@[j]).id@ != id@,
        decreases n - i,
    {
        if strutil::str_eq(rs[i].id.as_str(), id) {
            proof {
                assert(rs@[i as int].id@ == id@);
            }
            return true;
        }
        i = i + 1;
    }
    false
}

/// Computes the candidate releases of one artist's sync: flattens the
/// snapshot, drops every release id the store already associates with
/// the artist, and keeps the first occurrence of each remaining id, in
/// discovery order. Reports exactly the remote ids minus the known
/// ids; see [`lemma_plan_is_diff`].
pub fn plan_sync(store: &Store, artist_id: u32, page: &ArtistPage) -> (cands: Vec<Release>)
    requires
        store@.wf(),
    ensures
        cands@ == plan_from(flat_entries(page.releases@), store@.known_ids(artist_id)),
        forall|id: Seq<char>| #[trigger]
            entry_ids(cands@).contains(id) <==> (entry_ids(flat_entries(page.releases@)).contains(
                id,
            ) && !store@.known_ids(artist_id).contains(id)),
        forall|i: int, j: int|
            #![trigger cands@[i], cands@[j]]
            0 <= i < j < cands@.len() ==> cands@[i].id@ != cands@[j].id@,
{
    let known_vec = crate::releases::get_all_ids_for_artist(store, artist_id);
    let ghost k0 = store@.known_ids(artist_id);
    proof {
        store@.lemma_ids_for_contains(artist_id);
        assert forall|id: Seq<char>| #[trigger]
            strutil::str_views(known_vec@).contains(id) <==> k0.contains(id) by {
            assert(strutil::str_views(known_vec@).contains(id) == store@.ids_for(
                artist_id,
            ).contains(id));
        }
    }
    let entries = flatten_page(page);
    let n = entries.len();
    let mut cands: Vec<Release> = Vec::new();
    proof {
        assert(entries@.skip(0) =~= entries@);
        assert(k0.union(entry_ids(cands@)) =~= k0);
        assert(plan_from(entries@, k0) == cands@ + plan_from(
            entries@.skip(0),
            k0.union(entry_ids(cands@)),
        )) by {
            assert(cands@ + plan_from(entries@, k0) =~= plan_from(entries@, k0));
        }
    }
    let mut i: usize = 0;
    while i < n
        invariant
            i <= n,
            n == entries@.len(),
            k0 == store@.known_ids(artist_id),
            forall|id: Seq<char>| #[trigger]
                strutil::str_views(known_vec@).contains(id) <==> k0.contains(id),
            plan_from(entries@, k0) == cands@ + plan_from(
                entries@.skip(i as int),
                k0.union(entry_ids(cands@)),
            ),
        decreases n - i,
    {
        let e = &entries[i];
        let in_known = strutil::contains_str(&known_vec, e.id.as_str());
        let in_cands = contains_release_id(&cands, e.id.as_str());
        let ghost ku = k0.union(entry_ids(cands@));
        let ghost cands0 = cands@;
        let ghost tail = entries@.skip(i as int);
        proof {
            assert(tail[0] == entries@[i as int]);
            assert(tail.drop_first() =~= entries@.skip(i as int + 1));
        }
        if !in_known && !in_cands {
            cands.push(e.duplicate());
            proof {
                assert(!ku.contains(entries@[i as int].id@));
                lemma_entry_ids_push(cands0, entries@[i as int]);
                assert(cands@ == cands0.push(entries@[i as int]));
                assert(k0.union(entry_ids(cands@)) =~= ku.insert(entries@[i as int].id@));
                assert(plan_from(tail, ku) == seq![entries@[i as int]] + plan_from(
                    entries@.skip(i as int + 1),
                    k0.union(entry_ids(cands@)),
                ));
                assert(cands0 + plan_from(tail, ku) =~= cands@ + plan_from(
                    entries@.skip(i as int + 1),
                    k0.union(entry_ids(cands@)),
                ));
            }
        } else {
            proof {
                assert(ku.contains(entries@[i as int].id@));
                assert(plan_from(tail, ku) == plan_from(entries@.skip(i as int + 1), ku));
            }
        }
        i = i + 1;
    }
    proof {
        assert(entries@.skip(n as int) =~= Seq::<Release>::empty());
        assert(cands@ + plan_from(entries@.skip(n as int), k0.union(entry_ids(cands@))) =~= cands@);
        lemma_plan_is_diff(entries@, k0);
        lemma_plan_ids_distinct(entries@, k0);
    }
    cands
}

/// The views of a list of fetched track listings.
pub open spec fn seqs_of(fetched: Seq<Vec<Track>>) -> Seq<Seq<Track>> {
    fetched.map_values(|v: Vec<Track>| v@)
}

/// The ids of a list of engine rows, in order.
pub open spec fn rel_id_views(entries: Seq<Release>) -> Seq<Seq<char>> {
    entries.map_values(|r: Release| r.id@)
}

/// The store after committing the fetched track listings of the
/// candidates, in order: a candidate whose listing is empty contributes
/// nothing, the others get their tracks and associations inserted.
pub open spec fn with_fetched(s: StoreV, cands: Seq<Release>, fetched: Seq<Seq<Track>>) -> StoreV
    decreases cands.len(),
{
    if cands.len() == 0 {
        s
    } else {
        let s1 = if fetched[0].len() > 0 {
            s.with_tracks(cands[0].id, fetched[0])
        } else {
            s
        };
        with_fetched(s1, cands.drop_first(), fetched.drop_first())
    }
}

/// The candidates confirmed by their track fetch: those whose listing
/// is non-empty, in order.
pub open spec fn confirmed_from(cands: Seq<Release>, fetched: Seq<Seq<Track>>) -> Seq<Release>
    decreases cands.len(),
{
    if cands.len() == 0 {
        Seq::empty()
    } else {
        (if fetched[0].len() > 0 {
            seq![cands[0]]
        } else {
            Seq::empty()
        }) + confirmed_from(cands.drop_first(), fetched.drop_first())
    }
}

/// The store after a full track-commit pass: tracks of confirmed
/// candidates inserted, and exactly the confirmed candidates marked
/// verified.
pub open spec fn apply_result(s: StoreV, cands: Seq<Release>, fetched: Seq<Seq<Track>>) -> StoreV {
    with_fetched(s, cands, fetched).with_verified(rel_id_views(confirmed_from(cands, fetched)))
}

proof fn lemma_with_fetched_snoc(
    s: StoreV,
    cands: Seq<Release>,
    fetched: Seq<Seq<Track>>,
    c: Release,
    f: Seq<Track>,
)
    requires
        cands.len() == fetched.len(),
    ensures
        with_fetched(s, cands.push(c), fetched.push(f)) == if f.len() > 0 {
            with_fetched(s, cands, fetched).with_tracks(c.id, f)
        } else {
            with_fetched(s, cands, fetched)
        },
    decreases cands.len(),
{
    let ec = cands.push(c);
    let ef = fetched.push(f);
    reveal_with_fuel(with_fetched, 3);
    if cands.len() == 0 {
        assert(ec[0] == c);
        assert(ef[0] == f);
        assert(ec.drop_first() =~= Seq::<Release>::empty());
        assert(ef.drop_first() =~= Seq::<Seq<Track>>::empty());
    } else {
        assert(ec[0] == cands[0]);
        assert(ef[0] == fetched[0]);
        assert(ec.drop_first() =~= cands.drop_first().push(c));
        assert(ef.drop_first() =~= fetched.drop_first().push(f));
        let s1 = if fetched[0].len() > 0 {
            s.with_tracks(cands[0].id, fetched[0])
        } else {
            s
        };
        lemma_with_fetched_snoc(s1, cands.drop_first(), fetched.drop_first(), c, f);
    }
}

proof fn lemma_confirmed_snoc(
    cands: Seq<Release>,
    fetched: Seq<Seq<Track>>,
    c: Release,
    f: Seq<Track>,
)
    requires
        cands.len() == fetched.len(),
    ensures
        confirmed_from(cands.push(c), fetched.push(f)) == confirmed_from(cands, fetched) + (if f.len()
            > 0 {
            seq![c]
        } else {
            Seq::<Release>::empty()
        }),
    decreases cands.len(),
{
    let ec = cands.push(c);
    let ef = fetched.push(f);
    reveal_with_fuel(confirmed_from, 3);
    if cands.len() == 0 {
        assert(ec[0] == c);
        assert(ef[0] == f);
        assert(ec.drop_first() =~= Seq::<Release>::empty());
        assert(ef.drop_first() =~= Seq::<Seq<Track>>::empty());
        assert(confirmed_from(ec, ef) =~= confirmed_from(cands, fetched) + (if f.len() > 0 {
            seq![c]
        } else {
            Seq::<Release>::empty()
        }));
    } else {
        assert(ec[0] == cands[0]);
        assert(ef[0] == fetched[0]);
        assert(ec.drop_first() =~= cands.drop_first().push(c));
        assert(ef.drop_first() =~= fetched.drop_first().push(f));
        lemma_confirmed_snoc(cands.drop_first(), fetched.drop_first(), c, f);
        assert(confirmed_from(ec, ef) =~= confirmed_from(cands, fetched) + (if f.len() > 0 {
            seq![c]
        } else {
            Seq::<Release>::empty()
        }));
    }
}

/// A track-commit pass keeps the store well-formed and touches only
/// the track tables, which only grow.
pub proof fn lemma_with_fetched_wf(s: StoreV, cands: Seq<Release>, fetched: Seq<Seq<Track>>)
    requires
        s.wf(),
        cands.len() == fetched.len(),
    ensures
        with_fetched(s, cands, fetched).wf(),
        with_fetched(s, cands, fetched).clock == s.clock,
        with_fetched(s, cands, fetched).releases == s.releases,
        with_fetched(s, cands, fetched).artists == s.artists,
        with_fetched(s, cands, fetched).artist_releases == s.artist_releases,
        with_fetched(s, cands, fetched).playlists == s.playlists,
        s.tracks.is_prefix_of(with_fetched(s, cands, fetched).tracks),
        s.track_releases.is_prefix_of(with_fetched(s, cands, fetched).track_releases),
    decreases cands.len(),
{
    if cands.len() == 0 {
        crate::store::lemma_self_prefix(s.tracks);
        crate::store::lemma_self_prefix(s.track_releases);
    } else {
        let s1 = if fetched[0].len() > 0 {
            s.with_tracks(cands[0].id, fetched[0])
        } else {
            s
        };
        if fetched[0].len() > 0 {
            s.lemma_with_tracks_wf(cands[0].id, fetched[0]);
        } else {
            crate::store::lemma_self_prefix(s.tracks);
            crate::store::lemma_self_prefix(s.track_releases);
        }
        lemma_with_fetched_wf(s1, cands.drop_first(), fetched.drop_first());
        crate::store::lemma_prefix_trans(
            s.tracks,
            s1.tracks,
            with_fetched(s, cands, fetched).tracks,
        );
        crate::store::lemma_prefix_trans(
            s.track_releases,
            s1.track_releases,
            with_fetched(s, cands, fetched).track_releases,
        );
    }
}

/// After a track-commit pass, every candidate whose listing was
/// non-empty has at least one associated track.
pub proof fn lemma_with_fetched_confirmed_assoc(
    s: StoreV,
    cands: Seq<Release>,
    fetched: Seq<Seq<Track>>,
)
    requires
        s.wf(),
        cands.len() == fetched.len(),
    ensures
        forall|k: int|
            0 <= k < cands.len() && (#[trigger] fetched[k]).len() > 0 ==> with_fetched(
                s,
                cands,
                fetched,
            ).has_any_track_for(cands[k].id@),
    decreases cands.len(),
{
    if cands.len() > 0 {
        let s1 = if fetched[0].len() > 0 {
            s.with_tracks(cands[0].id, fetched[0])
        } else {
            s
        };
        let post = with_fetched(s, cands, fetched);
        if fetched[0].len() > 0 {
            s.lemma_with_tracks_wf(cands[0].id, fetched[0]);
        }
        lemma_with_fetched_confirmed_assoc(s1, cands.drop_first(), fetched.drop_first());
        lemma_with_fetched_wf(s1, cands.drop_first(), fetched.drop_first());
        assert forall|k: int|
            0 <= k < cands.len() && (#[trigger] fetched[k]).len() > 0 implies post
            .has_any_track_for(cands[k].id@) by {
            if k == 0 {
                assert(s1.has_any_track_for(cands[0].id@));
                let j = choose|j: int|
                    0 <= j < s1.track_releases.len() && #[trigger] s1.track_releases[j].0@
                        == cands[0].id@;
                assert(s1.track_releases[j] == s1.track_releases.subrange(
                    0,
                    s1.track_releases.len() as int,
                )[j]);
                assert(post.track_releases[j].0@ == cands[0].id@);
            } else {
                assert(cands.drop_first()[k - 1] == cands[k]);
                assert(fetched.drop_first()[k - 1] == fetched[k]);
                assert(post.has_any_track_for(cands.drop_first()[k - 1].id@));
            }
        }
    }
}

/// A release id is confirmed exactly when some candidate carries it
/// with a non-empty track listing.
pub proof fn lemma_confirmed_ids(cands: Seq<Release>, fetched: Seq<Seq<Track>>)
    requires
        cands.len() == fetched.len(),
    ensures
        forall|id: Seq<char>| #[trigger]
            rel_id_views(confirmed_from(cands, fetched)).contains(id) <==> exists|k: int|
                0 <= k < cands.len() && (#[trigger] fetched[k]).len() > 0 && cands[k].id@ == id,
    decreases cands.len(),
{
    let conf = confirmed_from(cands, fetched);
    let ids = rel_id_views(conf);
    if cands.len() > 0 {
        let cr = cands.drop_first();
        let fr = fetched.drop_first();
        lemma_confirmed_ids(cr, fr);
        let idsr = rel_id_views(confirmed_from(cr, fr));
        assert forall|id: Seq<char>| #[trigger]
            ids.contains(id) implies exists|k: int|
            0 <= k < cands.len() && (#[trigger] fetched[k]).len() > 0 && cands[k].id@ == id by {
            let j = choose|j: int| 0 <= j < ids.len() && ids[j] == id;
            let head_len: int = if fetched[0].len() > 0 {
                1
            } else {
                0
            };
            if j < head_len {
                assert(conf[0] == cands[0]);
                assert(ids[j] == cands[0].id@);
                assert(fetched[0].len() > 0 && cands[0].id@ == id);
            } else {
                assert(conf[j] == confirmed_from(cr, fr)[j - head_len]);
                assert(idsr[j - head_len] == id);
                assert(idsr.contains(id));
                let k = choose|k: int|
                    0 <= k < cr.len() && (#[trigger] fr[k]).len() > 0 && cr[k].id@ == id;
                assert(fetched[k + 1].len() > 0 && cands[k + 1].id@ == id);
            }
        }
        assert forall|id: Seq<char>|
            (exists|k: int|
                0 <= k < cands.len() && (#[trigger] fetched[k]).len() > 0 && cands[k].id@
                    == id) implies #[trigger] ids.contains(id) by {
            let k = choose|k: int|
                0 <= k < cands.len() && (#[trigger] fetched[k]).len() > 0 && cands[k].id@ == id;
            let head_len: int = if fetched[0].len() > 0 {
                1
            } else {
                0
            };
            if k == 0 {
                assert(conf[0] == cands[0]);
                assert(ids[0] == id);
            } else {
                assert(fr[k - 1].len() > 0 && cr[k - 1].id@ == id);
                assert(idsr.contains(id));
                let j = choose|j: int| 0 <= j < idsr.len() && idsr[j] == id;
                assert(conf[j + head_len] == confirmed_from(cr, fr)[j]);
                assert(ids[j + head_len] == id);
            }
        }
    }
}

/// Commits the fetched track listings of this run's candidates:
/// inserts the tracks of every candidate whose listing is non-empty
/// and marks exactly those candidates verified. A candidate whose
/// listing is empty is bogus: it is left stored but unverified and is
/// excluded from the returned confirmed list; see
/// [`lemma_bogus_excluded`]. Returns the confirmed candidates in fetch
/// order.
pub fn apply_track_results(store: &mut Store, cands: &Vec<Release>, fetched: &Vec<Vec<Track>>) -> (confirmed: Vec<
    Release,
>)
    requires
        old(store)@.wf(),
        fetched@.len() == cands@.len(),
    ensures
        final(store)@.wf(),
        confirmed@ == confirmed_from(cands@, seqs_of(fetched@)),
        final(store)@ == apply_result(old(store)@, cands@, seqs_of(fetched@)),
{
    let ghost fs = seqs_of(fetched@);
    let n = cands.len();
    let mut confirmed: Vec<Release> = Vec::new();
    proof {
        assert(cands@.take(0) =~= Seq::<Release>::empty());
        assert(fs.take(0) =~= Seq::<Seq<Track>>::empty());
    }
    let mut i: usize = 0;
    while i < n
        invariant
            i <= n,
            n == cands@.len(),
            n == fetched@.len(),
            fs == seqs_of(fetched@),
            old(store)@.wf(),
            store@.wf(),
            store@ == with_fetched(old(store)@, cands@.take(i as int), fs.take(i as int)),
            confirmed@ == confirmed_from(cands@.take(i as int), fs.take(i as int)),
        decreases n - i,
    {
        let ghost prev = store@;
        let ghost conf0 = confirmed@;
        if fetched[i].len() > 0 {
            crate::tracks::insert_batch(store, &cands[i].id, &fetched[i]);
            confirmed.push(cands[i].duplicate());
        }
        proof {
            assert(fs[i as int] == fetched@[i as int]@);
            lemma_with_fetched_snoc(
                old(store)@,
                cands@.take(i as int),
                fs.take(i as int),
                cands@[i as int],
                fs[i as int],
            );
            lemma_confirmed_snoc(
                cands@.take(i as int),
                fs.take(i as int),
                cands@[i as int],
                fs[i as int],
            );
            assert(cands@.take(i as int).push(cands@[i as int]) =~= cands@.take(i as int + 1));
            assert(fs.take(i as int).push(fs[i as int]) =~= fs.take(i as int + 1));
            if fs[i as int].len() > 0 {
                assert(store@ == prev.with_tracks(cands@[i as int].id, fs[i as int]));
                assert(confirmed@ =~= conf0 + seq![cands@[i as int]]);
            } else {
                assert(confirmed@ =~= conf0 + Seq::<Release>::empty());
            }
        }
        i = i + 1;
    }
    proof {
        assert(cands@.take(n as int) =~= cands@);
        assert(fs.take(n as int) =~= fs);
    }
    let m = confirmed.len();
    let mut ids: Vec<String> = Vec::new();
    let mut j: usize = 0;
    while j < m
        invariant
            j <= m,
            m == confirmed@.len(),
            ids@.len() == j,
            forall|x: int| 0 <= x < j ==> #[trigger] ids@[x]@ == confirmed@[x].id@,
        decreases m - j,
    {
        ids.push(confirmed[j].id.clone());
        j = j + 1;
    }
    proof {
        assert forall|x: int| 0 <= x < m implies strutil::str_views(ids@)[x] == rel_id_views(
            confirmed@,
        )[x] by {
            assert(strutil::str_views(ids@)[x] == ids@[x]@);
            assert(rel_id_views(confirmed@)[x] == confirmed@[x].id@);
        }
        assert(strutil::str_views(ids@) =~= rel_id_views(confirmed@));
        lemma_with_fetched_confirmed_assoc(old(store)@, cands@, fs);
        lemma_confirmed_ids(cands@, fs);
        assert forall|id: Seq<char>|
            strutil::str_views(ids@).contains(id) && store@.has_release(id) implies store@
            .has_any_track_for(id) by {
            assert(rel_id_views(confirmed_from(cands@, fs)).contains(id));
            let k = choose|k: int|
                0 <= k < cands@.len() && (#[trigger] fs[k]).len() > 0 && cands@[k].id@ == id;
            assert(store@.has_any_track_for(cands@[k].id@));
        }
    }
    crate::releases::bulk_verify(store, &ids);
    confirmed
}

/// A candidate whose track fetch came back empty is never confirmed
/// and never marked verified by the commit pass, though its stored row
/// remains: its id is absent from the confirmed list, and its release
/// row keeps the verified flag it had before.
pub proof fn lemma_bogus_excluded(
    s: StoreV,
    cands: Seq<Release>,
    fetched: Seq<Seq<Track>>,
    k: int,
)
    requires
        s.wf(),
        cands.len() == fetched.len(),
        0 <= k < cands.len(),
        fetched[k].len() == 0,
        forall|j: int| 0 <= j < cands.len() && j != k ==> (#[trigger] cands[j]).id@ != cands[k].id@,
        s.has_release(cands[k].id@),
    ensures
        !rel_id_views(confirmed_from(cands, fetched)).contains(cands[k].id@),
        apply_result(s, cands, fetched).has_release(cands[k].id@),
        apply_result(s, cands, fetched).release_at(cands[k].id@).verified == s.release_at(
            cands[k].id@,
        ).verified,
{
    let id = cands[k].id@;
    let conf_ids = rel_id_views(confirmed_from(cands, fetched));
    lemma_confirmed_ids(cands, fetched);
    assert(!conf_ids.contains(id)) by {
        if conf_ids.contains(id) {
            let j = choose|j: int|
                0 <= j < cands.len() && (#[trigger] fetched[j]).len() > 0 && cands[j].id@ == id;
            assert(j != k);
            assert(cands[j].id@ != cands[k].id@);
        }
    }
    let w = with_fetched(s, cands, fetched);
    let post = apply_result(s, cands, fetched);
    lemma_with_fetched_wf(s, cands, fetched);
    lemma_with_fetched_confirmed_assoc(s, cands, fetched);
    assert forall|cid: Seq<char>|
        conf_ids.contains(cid) && w.has_release(cid) implies w.has_any_track_for(cid) by {
        let j = choose|j: int|
            0 <= j < cands.len() && (#[trigger] fetched[j]).len() > 0 && cands[j].id@ == cid;
        assert(w.has_any_track_for(cands[j].id@));
    }
    w.lemma_with_verified_wf(conf_ids);
    let i = choose|i: int| 0 <= i < s.releases.len() && #[trigger] s.releases[i].id@ == id;
    assert(w.releases[i].id@ == id);
    assert(post.releases[i].id == w.releases[i].id);
    assert(post.has_release(id)) by {
        assert(post.releases[i].id@ == id);
    }
    s.lemma_release_at_unique(id, i);
    w.lemma_release_at_unique(id, i);
    post.lemma_release_at_unique(id, i);
    assert(post.releases[i].verified <==> (w.releases[i].verified || conf_ids.contains(
        w.releases[i].id@,
    )));
    assert(post.releases[i].verified == s.releases[i].verified);
}

/// A staged candidate whose track fetch came back non-empty is marked
/// verified by the commit pass.
pub proof fn lemma_confirmed_verified(
    s: StoreV,
    cands: Seq<Release>,
    fetched: Seq<Seq<Track>>,
    k: int,
)
    requires
        s.wf(),
        cands.len() == fetched.len(),
        0 <= k < cands.len(),
        fetched[k].len() > 0,
        s.has_release(cands[k].id@),
    ensures
        apply_result(s, cands, fetched).has_release(cands[k].id@),
        apply_result(s, cands, fetched).release_at(cands[k].id@).verified,
{
    let id = cands[k].id@;
    let conf_ids = rel_id_views(confirmed_from(cands, fetched));
    lemma_confirmed_ids(cands, fetched);
    assert(conf_ids.contains(id));
    let w = with_fetched(s, cands, fetched);
    let post = apply_result(s, cands, fetched);
    lemma_with_fetched_wf(s, cands, fetched);
    lemma_with_fetched_confirmed_assoc(s, cands, fetched);
    assert forall|cid: Seq<char>|
        conf_ids.contains(cid) && w.has_release(cid) implies w.has_any_track_for(cid) by {
        let j = choose|j: int|
            0 <= j < cands.len() && (#[trigger] fetched[j]).len() > 0 && cands[j].id@ == cid;
        assert(w.has_any_track_for(cands[j].id@));
    }
    w.lemma_with_verified_wf(conf_ids);
    let i = choose|i: int| 0 <= i < s.releases.len() && #[trigger] s.releases[i].id@ == id;
    assert(w.releases[i].id@ == id);
    assert(post.releases[i].id == w.releases[i].id);
    assert(post.has_release(id)) by {
        assert(post.releases[i].id@ == id);
    }
    post.lemma_release_at_unique(id, i);
    assert(post.releases[i].verified <==> (w.releases[i].verified || conf_ids.contains(
        w.releases[i].id@,
    )));
}

/// Loading the same snapshot twice yields the same store as loading it
/// once: the upserts are keyed on catalog ids, so every row and
/// association of the second pass is already present.
pub proof fn lemma_load_idempotent(s: StoreV, page: ArtistPage)
    ensures
        load_result(load_result(s, page), page) == load_result(s, page),
{
    let a = Artist { id: page.id, name: page.name.display };
    let rs = flat_entries(page.releases@);
    let s1 = s.with_artist(a);
    let s2 = s1.with_releases(page.id, rs);
    assert(s1.has_artist(a.id)) by {
        if s.has_artist(a.id) {
            let k = choose|k: int| 0 <= k < s.artists.len() && #[trigger] s.artists[k].id == a.id;
            assert(s1.artists[k].id == a.id);
        } else {
            assert(s1.artists[s.artists.len() as int].id == a.id);
        }
    }
    assert(s2.has_artist(a.id)) by {
        s1.lemma_with_releases_grows(page.id, rs);
        s1.lemma_grow_preserves(s2);
    }
    assert(s2.with_artist(a) == s2);
    s1.lemma_with_releases_adds(page.id, rs);
    s2.lemma_with_releases_identity(page.id, rs);
}

} // verus!
