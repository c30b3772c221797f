//! The reporting layer: renders the engine's and builder's structured
//! results as the exact lines the operator sees, and lists artist
//! names in case-insensitive order. Pure formatting over values the
//! other modules produce; no business logic.

use vstd::prelude::*;
use vstd::string::StringExecFns;

use crate::artists::Artist;
use crate::releases::Release;
use crate::store::Store;
use crate::strutil::fold_key;

verus! {

/// The digit character of one decimal digit.
pub open spec fn dec_digit(d: int) -> char {
    if d == 0 {
        '0'
    } else if d == 1 {
        '1'
    } else if d == 2 {
        '2'
    } else if d == 3 {
        '3'
    } else if d == 4 {
        '4'
    } else if d == 5 {
        '5'
    } else if d == 6 {
        '6'
    } else if d == 7 {
        '7'
    } else if d == 8 {
        '8'
    } else {
        '9'
    }
}

/// The decimal rendering of a non-negative number, most significant
/// digit first.
pub open spec fn dec_of(n: int) -> Seq<char>
    recommends
        n >= 0,
    decreases n,
{
    if n < 10 {
        seq![dec_digit(n)]
    } else {
        dec_of(n / 10).push(dec_digit(n % 10))
    }
}

fn digit_str(d: u64) -> (s: &'static str)
    requires
        d < 10,
    ensures
        s@ == seq![dec_digit(d as int)],
{
    let r: &'static str = if d == 0 {
        "0"
    } else if d == 1 {
        "1"
    } else if d == 2 {
        "2"
    } else if d == 3 {
        "3"
    } else if d == 4 {
        "4"
    } else if d == 5 {
        "5"
    } else if d == 6 {
        "6"
    } else if d == 7 {
        "7"
    } else if d == 8 {
        "8"
    } else {
        "9"
    };
    proof {
        reveal_strlit("0");
        reveal_strlit("1");
        reveal_strlit("2");
        reveal_strlit("3");
        reveal_strlit("4");
        reveal_strlit("5");
        reveal_strlit("6");
        reveal_strlit("7");
        reveal_strlit("8");
        reveal_strlit("9");
        assert(r@ =~= seq![dec_digit(d as int)]);
    }
    r
}

/// Renders a number in decimal.
pub fn dec_str(n: u64) -> (s: String)
    ensures
        s@ == dec_of(n as int),
    decreases n,
{
    if n < 10 {
        String::from_str(digit_str(n))
    } else {
        let mut s = dec_str(n / 10);
        s.append(digit_str(n % 10));
        proof {
            assert(s@ =~= dec_of(n as int));
        }
        s
    }
}

/// The line announcing which artist is being loaded.
pub open spec fn loading_line_spec(name: Seq<char>) -> Seq<char> {
    "Loading data for '"@ + name + "'"@
}

/// Renders the line announcing which artist is being loaded.
pub fn loading_line(name: &str) -> (s: String)
    ensures
        s@ == loading_line_spec(name@),
{
    let mut s = String::from_str("Loading data for '");
    s.append(name);
    s.append("'");
    s
}

/// The line reporting how many releases a load stored.
pub open spec fn loaded_line_spec(n: int) -> Seq<char> {
    "Loaded "@ + dec_of(n) + " releases"@
}

/// Renders the line reporting how many releases a load stored.
pub fn loaded_line(n: usize) -> (s: String)
    ensures
        s@ == loaded_line_spec(n as int),
{
    let mut s = String::from_str("Loaded ");
    s.append(dec_str(n as u64).as_str());
    s.append(" releases");
    s
}

/// The header line of a sync run.
pub open spec fn checking_line_spec(n: int) -> Seq<char> {
    "Checking "@ + dec_of(n) + " artists"@
}

/// Renders the header line of a sync run.
pub fn checking_line(n: usize) -> (s: String)
    ensures
        s@ == checking_line_spec(n as int),
{
    let mut s = String::from_str("Checking ");
    s.append(dec_str(n as u64).as_str());
    s.append(" artists");
    s
}

/// Renders the line reported when no artist had new music.
pub fn no_new_music_line() -> (s: String)
    ensures
        s@ == "No new music found"@,
{
    String::from_str("No new music found")
}

/// Renders the line reported when playlist generation found no
/// eligible track.
pub fn no_new_tracks_line() -> (s: String)
    ensures
        s@ == "No new tracks. Skipping playlist creation"@,
{
    String::from_str("No new tracks. Skipping playlist creation")
}

/// The line reporting a created playlist.
pub open spec fn created_playlist_spec(name: Seq<char>) -> Seq<char> {
    "Created playlist: "@ + name
}

/// Renders the line reporting a created playlist.
pub fn created_playlist_line(name: &str) -> (s: String)
    ensures
        s@ == created_playlist_spec(name@),
{
    let mut s = String::from_str("Created playlist: ");
    s.append(name);
    s
}

/// The singular or plural release noun: singular exactly for one.
pub open spec fn release_phrase(n: int) -> Seq<char> {
    if n == 1 {
        "release"@
    } else {
        "releases"@
    }
}

/// The per-artist line reporting how many new releases were confirmed.
pub open spec fn found_line_spec(n: int, name: Seq<char>) -> Seq<char> {
    "Found "@ + dec_of(n) + " new "@ + release_phrase(n) + " for "@ + name
}

/// Renders the per-artist line reporting how many new releases were
/// confirmed, with the count's singular or plural noun.
pub fn found_line(n: usize, name: &str) -> (s: String)
    ensures
        s@ == found_line_spec(n as int, name@),
{
    let mut s = String::from_str("Found ");
    s.append(dec_str(n as u64).as_str());
    s.append(" new ");
    if n == 1 {
        s.append("release");
    } else {
        s.append("releases");
    }
    s.append(" for ");
    s.append(name);
    s
}

/// The bulleted line of one confirmed release title.
pub open spec fn bullet_line_spec(title: Seq<char>) -> Seq<char> {
    "\t • "@ + title
}

/// Renders the bulleted line of one confirmed release title.
pub fn release_bullet(title: &str) -> (s: String)
    ensures
        s@ == bullet_line_spec(title@),
{
    let mut s = String::from_str("\t • ");
    s.append(title);
    s
}

/// Renders the whole per-artist report of a sync run: the count line
/// followed by one bulleted title per confirmed release, in the order
/// they were confirmed.
pub fn artist_report_lines(name: &str, confirmed: &Vec<Release>) -> (lines: Vec<String>)
    ensures
        lines@.len() == 1 + confirmed@.len(),
        lines@[0]@ == found_line_spec(confirmed@.len() as int, name@),
        forall|i: int|
            0 <= i < confirmed@.len() ==> #[trigger] lines@[i + 1]@ == bullet_line_spec(
                confirmed@[i].title@,
            ),
{
    let mut lines: Vec<String> = Vec::new();
    lines.push(found_line(confirmed.len(), name));
    let n = confirmed.len();
    let mut i: usize = 0;
    while i < n
        invariant
            i <= n,
            n == confirmed@.len(),
            lines@.len() == 1 + i,
            lines@[0]@ == found_line_spec(confirmed@.len() as int, name@),
            forall|j: int|
                0 <= j < i ==> #[trigger] lines@[j + 1]@ == bullet_line_spec(
                    confirmed@[j].title@,
                ),
        decreases n - i,
    {
        lines.push(release_bullet(confirmed[i].title.as_str()));
        i = i + 1;
    }
    lines
}

/// The lexicographic order on case-folded comparison keys.
pub open spec fn lex_le(a: Seq<u32>, b: Seq<u32>) -> bool
    decreases a.len(),
{
    if a.len() == 0 {
        true
    } else if b.len() == 0 {
        false
    } else if a[0] < b[0] {
        true
    } else if a[0] > b[0] {
        false
    } else {
        lex_le(a.drop_first(), b.drop_first())
    }
}

/// The key order is total.
pub proof fn lemma_lex_le_total(a: Seq<u32>, b: Seq<u32>)
    ensures
        lex_le(a, b) || lex_le(b, a),
    decreases a.len(),
{
    if a.len() > 0 && b.len() > 0 && a[0] == b[0] {
        lemma_lex_le_total(a.drop_first(), b.drop_first());
    }
}

/// The key order is transitive.
pub proof fn lemma_lex_le_trans(a: Seq<u32>, b: Seq<u32>, c: Seq<u32>)
    requires
        lex_le(a, b),
        lex_le(b, c),
    ensures
        lex_le(a, c),
    decreases a.len(),
{
    if a.len() > 0 && b.len() > 0 && c.len() > 0 && a[0] == b[0] && b[0] == c[0] {
        lemma_lex_le_trans(a.drop_first(), b.drop_first(), c.drop_first());
    }
}

proof fn lemma_lex_le_common_prefix(a: Seq<u32>, b: Seq<u32>, i: int)
    requires
        0 <= i <= a.len(),
        i <= b.len(),
        forall|j: int| 0 <= j < i ==> a[j] == b[j],
    ensures
        lex_le(a, b) == lex_le(a.skip(i), b.skip(i)),
    decreases i,
{
    if i == 0 {
        assert(a.skip(0) =~= a);
        assert(b.skip(0) =~= b);
    } else {
        assert(a[0] == b[0]);
        assert(a.len() > 0 && b.len() > 0);
        assert forall|j: int| 0 <= j < i - 1 implies a.drop_first()[j] == b.drop_first()[j] by {
            assert(a.drop_first()[j] == a[j + 1]);
            assert(b.drop_first()[j] == b[j + 1]);
        }
        lemma_lex_le_common_prefix(a.drop_first(), b.drop_first(), i - 1);
        assert(a.drop_first().skip(i - 1) =~= a.skip(i));
        assert(b.drop_first().skip(i - 1) =~= b.skip(i));
    }
}

/// Compares two strings by their case-folded keys.
pub fn le_fold(a: &str, b: &str) -> (r: bool)
    ensures
        r == lex_le(fold_key(a@), fold_key(b@)),
{
    let alen = a.unicode_len();
    let blen = b.unicode_len();
    let min: usize = if alen < blen {
        alen
    } else {
        blen
    };
    let ghost ka = fold_key(a@);
    let ghost kb = fold_key(b@);
    let mut i: usize = 0;
    while i < min
        invariant
            i <= min,
            alen == a@.len(),
            blen == b@.len(),
            min == if alen < blen {
                alen
            } else {
                blen
            },
            ka == fold_key(a@),
            kb == fold_key(b@),
            forall|j: int| 0 <= j < i ==> ka[j] == kb[j],
        decreases min - i,
    {
        let fa = crate::strutil::fold_char_exec(a.get_char(i));
        let fb = crate::strutil::fold_char_exec(b.get_char(i));
        proof {
            assert(ka[i as int] == crate::strutil::fold_char(a@[i as int]));
            assert(kb[i as int] == crate::strutil::fold_char(b@[i as int]));
            lemma_lex_le_common_prefix(ka, kb, i as int);
        }
        if fa < fb {
            proof {
                assert(ka.skip(i as int)[0] == ka[i as int]);
                assert(kb.skip(i as int)[0] == kb[i as int]);
                assert(lex_le(ka.skip(i as int), kb.skip(i as int)));
            }
            return true;
        }
        if fa > fb {
            proof {
                assert(ka.skip(i as int)[0] == ka[i as int]);
                assert(kb.skip(i as int)[0] == kb[i as int]);
                assert(!lex_le(ka.skip(i as int), kb.skip(i as int)));
            }
            return false;
        }
        i = i + 1;
    }
    proof {
        lemma_lex_le_common_prefix(ka, kb, min as int);
        if alen <= blen {
            assert(ka.skip(min as int).len() == 0);
            assert(lex_le(ka.skip(min as int), kb.skip(min as int)));
        } else {
            assert(kb.skip(min as int).len() == 0);
            assert(ka.skip(min as int).len() > 0);
            assert(!lex_le(ka.skip(min as int), kb.skip(min as int)));
        }
    }
    alen <= blen
}

/// Whether a list of names is sorted by case-folded keys.
pub open spec fn sorted_ci(names: Seq<String>) -> bool {
    forall|x: int, y: int|
        0 <= x < y < names.len() ==> lex_le(
            fold_key(#[trigger] names[x]@),
            fold_key(#[trigger] names[y]@),
        )
}

/// The position in a sorted list at which a name belongs: the first
/// index whose key does not precede the name's key.
fn insert_pos(out: &Vec<String>, name: &str) -> (k: usize)
    ensures
        k <= out@.len(),
        forall|x: int| 0 <= x < k ==> lex_le(fold_key(#[trigger] out@[x]@), fold_key(name@)),
        k < out@.len() ==> !lex_le(fold_key(out@[k as int]@), fold_key(name@)),
{
    let m = out.len();
    let mut k: usize = 0;
    while k < m
        invariant
            k <= m,
            m == out@.len(),
            forall|x: int| 0 <= x < k ==> lex_le(fold_key(#[trigger] out@[x]@), fold_key(name@)),
        decreases m - k,
    {
        if !le_fold(out[k].as_str(), name) {
            return k;
        }
        k = k + 1;
    }
    k
}

/// Sorts a list of names by their case-folded keys, by insertion.
fn sort_names_ci(names: &Vec<String>) -> (r: Vec<String>)
    ensures
        sorted_ci(r@),
        r@.to_multiset() == names@.to_multiset(),
{
    broadcast use vstd::seq_lib::group_to_multiset_ensures;

    let n = names.len();
    let mut out: Vec<String> = Vec::new();
    let mut i: usize = 0;
    proof {
        assert(names@.take(0) =~= Seq::<String>::empty());
        assert(out@.to_multiset() =~= names@.take(0).to_multiset());
    }
    while i < n
        invariant
            i <= n,
            n == names@.len(),
            sorted_ci(out@),
            out@.len() == i,
            out@.to_multiset() == names@.take(i as int).to_multiset(),
        decreases n - i,
    {
        let name = names[i].clone();
        let ghost out0 = out@;
        let k = insert_pos(&out, name.as_str());
        out.insert(k, name);
        proof {
            out0.insert_ensures(k as int, names@[i as int]);
            assert forall|x: int, y: int| 0 <= x < y < out@.len() implies lex_le(
                fold_key(#[trigger] out@[x]@),
                fold_key(#[trigger] out@[y]@),
            ) by {
                let ki = k as int;
                if y < ki {
                    assert(out@[x] == out0[x] && out@[y] == out0[y]);
                } else if x < ki && y == ki {
                    assert(out@[x] == out0[x]);
                    assert(lex_le(fold_key(out0[x]@), fold_key(name@)));
                } else if x < ki && y > ki {
                    assert(out@[x] == out0[x] && out@[y] == out0[y - 1]);
                } else if x == ki {
                    assert(out@[y] == out0[y - 1] && y - 1 >= ki);
                    if ki < out0.len() {
                        lemma_lex_le_total(fold_key(out0[ki]@), fold_key(name@));
                        assert(lex_le(fold_key(name@), fold_key(out0[ki]@)));
                        if y - 1 > ki {
                            assert(lex_le(fold_key(out0[ki]@), fold_key(out0[y - 1]@)));
                            lemma_lex_le_trans(
                                fold_key(name@),
                                fold_key(out0[ki]@),
                                fold_key(out0[y - 1]@),
                            );
                        }
                    }
                } else {
                    assert(out@[x] == out0[x - 1] && out@[y] == out0[y - 1]);
                }
            }
            assert(out@.to_multiset() == names@.take(i as int + 1).to_multiset()) by {
                assert(out@ == out0.insert(k as int, names@[i as int]));
                vstd::seq_lib::to_multiset_insert(out0, k as int, names@[i as int]);
                assert(names@.take(i as int + 1) =~= names@.take(i as int).push(
                    names@[i as int],
                ));
                vstd::seq_lib::to_multiset_build(names@.take(i as int), names@[i as int]);
            }
        }
        i = i + 1;
    }
    proof {
        assert(names@.take(n as int) =~= names@);
    }
    out
}

/// Lists the stored artist names sorted case-insensitively: the result
/// is a permutation of the stored names ordered by their case-folded
/// keys.
pub fn list_artists(store: &Store) -> (r: Vec<String>)
    ensures
        sorted_ci(r@),
        r@.to_multiset() == store@.artists.map_values(|a: Artist| a.name).to_multiset(),
{
    broadcast use vstd::seq_lib::group_to_multiset_ensures;

    let n = store.artists.len();
    let mut names: Vec<String> = Vec::new();
    let mut i: usize = 0;
    while i < n
        invariant
            i <= n,
            n == store@.artists.len(),
            names@ =~= store@.artists.map_values(|a: Artist| a.name).take(i as int),
        decreases n - i,
    {
        names.push(store.artists[i].name.clone());
        proof {
            assert(store@.artists.map_values(|a: Artist| a.name)[i as int] == store@.artists[
                i as int].name);
            assert(names@ =~= store@.artists.map_values(|a: Artist| a.name).take(i as int + 1));
        }
        i = i + 1;
    }
    proof {
        assert(names@ =~= store@.artists.map_values(|a: Artist| a.name));
    }
    sort_names_ci(&names)
}

} // verus!
