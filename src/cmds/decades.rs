//! The saved tracks grouped by the decade of their album's release.
use vstd::prelude::*;
use vstd::string::StrSliceExecFns;

use crate::cmds::grouping::{
    first_keys, group_positions, is_grouping, lemma_first_keys_distinct, positions_of,
    positions_view,
};
use crate::cmds::spotify_api::Track;
use crate::text::string_views;
use crate::text::{
    decimal, decimal_string, join_all, joined, lemma_seq_less_total, seq_less, str_less,
};

verus! {

broadcast use vstd::seq_lib::group_seq_properties;

/// The decade of a release date: its first three chars and "0s".
pub open spec fn decade_key(date: Seq<char>) -> Seq<char> {
    date.take(3) + "0s"@
}

/// The decade of each track.
pub open spec fn decade_keys(tracks: Seq<Track>) -> Seq<Seq<char>> {
    tracks.map_values(|t: Track| decade_key(t.album.release_date@))
}

/// Whether every release date is long enough to name a decade.
pub open spec fn dated(tracks: Seq<Track>) -> bool {
    forall|i: int| 0 <= i < tracks.len() ==> (#[trigger] tracks[i]).album.release_date@.len() >= 3
}

/// The decade a release date falls in, as in "1990s".
pub fn decade_of(date: &str) -> (r: String)
    requires
        date@.len() >= 3,
    ensures
        r@ == decade_key(date@),
{
    let mut key = date.substring_char(0, 3).to_owned();
    key.append("0s");
    key
}

/// `groups` lists each decade of `tracks` once, in ascending order, with the
/// positions of the tracks released in it.
pub open spec fn is_decade_grouping(groups: Seq<(String, Vec<usize>)>, tracks: Seq<Track>) -> bool {
    let keys = decade_keys(tracks);
    &&& groups.len() == first_keys(keys).len()
    &&& forall|m: int| 0 <= m < groups.len() - 1 ==> seq_less(#[trigger] groups[m].0@, groups[m + 1].0@)
    &&& forall|m: int|
        0 <= m < groups.len() ==> first_keys(keys).contains(#[trigger] groups[m].0@)
            && positions_view(groups[m].1@) == positions_of(keys, groups[m].0@)
    &&& forall|j: int| 0 <= j < first_keys(keys).len() ==> #[trigger] has_key(groups, first_keys(keys)[j])
}

/// Whether some group has key `k`.
pub open spec fn has_key(groups: Seq<(String, Vec<usize>)>, k: Seq<char>) -> bool {
    exists|m: int| 0 <= m < groups.len() && groups[m].0@ == k
}

/// Each key sorts before the next.
pub open spec fn ascending(groups: Seq<(String, Vec<usize>)>) -> bool {
    forall|m: int| 0 <= m < groups.len() - 1 ==> seq_less(#[trigger] groups[m].0@, groups[m + 1].0@)
}

/// Inserts `group` before the first key that does not sort before its own,
/// keeping the keys ascending; returns where it went.
fn insert_in_order(sorted: &mut Vec<(String, Vec<usize>)>, group: (String, Vec<usize>)) -> (p: usize)
    requires
        ascending(old(sorted)@),
        forall|m: int| 0 <= m < old(sorted)@.len() ==> (#[trigger] old(sorted)@[m]).0@ != group.0@,
    ensures
        p <= old(sorted)@.len(),
        final(sorted)@ == old(sorted)@.insert(p as int, group),
        ascending(final(sorted)@),
{
    let ghost g = group;
    let mut p: usize = 0;
    while p < sorted.len() && str_less(sorted[p].0.as_str(), group.0.as_str())
        invariant
            p <= sorted@.len(),
            g == group,
            forall|q: int| 0 <= q < p ==> seq_less(#[trigger] sorted@[q].0@, g.0@),
        decreases sorted.len() - p,
    {
        p = p + 1;
    }
    let ghost before = sorted@;
    proof {
        if p < before.len() {
            lemma_seq_less_total(g.0@, before[p as int].0@);
        }
    }
    sorted.insert(p, group);
    assert forall|m: int| 0 <= m < sorted@.len() - 1 implies seq_less(
        #[trigger] sorted@[m].0@,
        sorted@[m + 1].0@,
    ) by {
        if m + 1 < p {
            assert(sorted@[m] == before[m] && sorted@[m + 1] == before[m + 1]);
        } else if m + 1 == p {
            assert(sorted@[m] == before[m]);
        } else if m == p {
            assert(sorted@[m + 1] == before[m]);
        } else {
            assert(sorted@[m] == before[m - 1] && sorted@[m + 1] == before[m]);
        }
    }
    p
}

/// The tracks' positions grouped by decade, decades in ascending order.
pub fn tracks_by_decade(tracks: &Vec<Track>) -> (r: Vec<(String, Vec<usize>)>)
    requires
        dated(tracks@),
    ensures
        is_decade_grouping(r@, tracks@),
{
    let ghost dk = decade_keys(tracks@);
    let mut keys: Vec<String> = Vec::new();
    let mut i: usize = 0;
    while i < tracks.len()
        invariant
            i <= tracks@.len(),
            dated(tracks@),
            dk == decade_keys(tracks@),
            string_views(keys@) == dk.subrange(0, i as int),
        decreases tracks.len() - i,
    {
        let ghost before = keys@;
        assert(tracks@[i as int].album.release_date@.len() >= 3);
        keys.push(decade_of(tracks[i].album.release_date.as_str()));
        assert(string_views(keys@) =~= string_views(before).push(dk[i as int]));
        assert(dk.subrange(0, i + 1) =~= dk.subrange(0, i as int).push(dk[i as int]));
        i = i + 1;
    }
    assert(dk.subrange(0, i as int) =~= dk);
    let mut groups = group_positions(&keys);
    let ghost all = groups@;
    let ghost fk = first_keys(dk);
    proof {
        lemma_first_keys_distinct(dk);
    }
    let mut sorted: Vec<(String, Vec<usize>)> = Vec::new();
    let ghost mut taken: int = 0;
    while groups.len() > 0
        invariant
            is_grouping(all, dk),
            fk == first_keys(dk),
            fk.no_duplicates(),
            0 <= taken <= all.len(),
            groups@ == all.subrange(taken, all.len() as int),
            sorted@.len() == taken,
            ascending(sorted@),
            forall|m: int| 0 <= m < sorted@.len() ==> exists|j: int| 0 <= j < taken && #[trigger] sorted@[m] == all[j],
            forall|j: int| 0 <= j < taken ==> exists|m: int| 0 <= m < sorted@.len() && sorted@[m] == #[trigger] all[j],
        decreases groups.len(),
    {
        let group = groups.remove(0);
        let ghost g = group;
        assert(g == all[taken]);
        let ghost before = sorted@;
        assert forall|m: int| 0 <= m < before.len() implies (#[trigger] before[m]).0@ != g.0@ by {
            let j = choose|j: int| 0 <= j < taken && before[m] == all[j];
            assert(all[j].0@ == fk[j]);
            assert(g.0@ == fk[taken]);
        }
        let p = insert_in_order(&mut sorted, group);
        assert forall|m: int| 0 <= m < sorted@.len() implies exists|j: int|
            0 <= j < taken + 1 && #[trigger] sorted@[m] == all[j] by {
            if m < p {
                assert(sorted@[m] == before[m]);
            } else if m > p {
                assert(sorted@[m] == before[m - 1]);
            } else {
                assert(sorted@[m] == all[taken]);
            }
        }
        assert forall|j: int| 0 <= j < taken + 1 implies exists|m: int|
            0 <= m < sorted@.len() && sorted@[m] == #[trigger] all[j] by {
            if j < taken {
                let m = choose|m: int| 0 <= m < before.len() && before[m] == all[j];
                if m < p {
                    assert(sorted@[m] == all[j]);
                } else {
                    assert(sorted@[m + 1] == all[j]);
                }
            } else {
                assert(sorted@[p as int] == all[j]);
            }
        }
        proof {
            taken = taken + 1;
        }
        assert(groups@ =~= all.subrange(taken, all.len() as int));
    }
    assert(taken == all.len()) by {
        assert(groups@.len() == all.len() - taken);
    }
    assert forall|m: int| 0 <= m < sorted@.len() implies fk.contains(#[trigger] sorted@[m].0@)
        && positions_view(sorted@[m].1@) == positions_of(dk, sorted@[m].0@) by {
        let j = choose|j: int| 0 <= j < taken && sorted@[m] == all[j];
        assert(all[j].0@ == fk[j]);
    }
    assert forall|j: int| 0 <= j < fk.len() implies #[trigger] has_key(sorted@, fk[j]) by {
        let m = choose|m: int| 0 <= m < sorted@.len() && sorted@[m] == all[j];
        assert(all[j].0@ == fk[j]);
        assert(sorted@[m].0@ == fk[j]);
    }
    assert(sorted@.len() == fk.len());
    assert(ascending(sorted@));
    assert(dk == decade_keys(tracks@));
    sorted
}

/// The short name of a decade: "1990s" becomes "90s".
pub open spec fn short_decade(key: Seq<char>) -> Seq<char> {
    key.skip(2)
}

/// The line offering a decade: its short name and how many songs it holds.
pub fn decade_label(key: &str, songs: usize) -> (r: String)
    requires
        key@.len() >= 2,
    ensures
        r@ == short_decade(key@) + " - "@ + decimal(songs as nat) + " songs"@,
{
    let mut label = key.substring_char(2, key.unicode_len()).to_owned();
    label.append(" - ");
    label.append(decimal_string(songs as u64).as_str());
    label.append(" songs");
    label
}

/// The default playlist name for the chosen decades: their short names,
/// separated by "/".
pub fn decades_playlist_name(groups: &Vec<(String, Vec<usize>)>, selection: &Vec<usize>) -> (r:
    String)
    requires
        forall|k: int| 0 <= k < selection@.len() ==> (#[trigger] selection@[k] as int) < groups@.len(),
        forall|m: int| 0 <= m < groups@.len() ==> (#[trigger] groups@[m]).0@.len() >= 2,
    ensures
        r@ == joined(
            selection@.map_values(|k: usize| short_decade(groups@[k as int].0@)),
            "/"@,
        ),
{
    let mut names: Vec<String> = Vec::new();
    let mut k: usize = 0;
    while k < selection.len()
        invariant
            k <= selection@.len(),
            forall|q: int| 0 <= q < selection@.len() ==> (#[trigger] selection@[q] as int) < groups@.len(),
            forall|m: int| 0 <= m < groups@.len() ==> (#[trigger] groups@[m]).0@.len() >= 2,
            string_views(names@) == selection@.subrange(0, k as int).map_values(
                |q: usize| short_decade(groups@[q as int].0@),
            ),
        decreases selection.len() - k,
    {
        let key = groups[selection[k]].0.as_str();
        let ghost before = names@;
        names.push(key.substring_char(2, key.unicode_len()).to_owned());
        assert(names@.last()@ =~= short_decade(groups@[selection@[k as int] as int].0@));
        assert(string_views(names@) =~= string_views(before).push(names@.last()@));
        assert(selection@.subrange(0, k + 1) =~= selection@.subrange(0, k as int).push(
            selection@[k as int],
        ));
        assert(string_views(names@) =~= selection@.subrange(0, k + 1).map_values(
            |q: usize| short_decade(groups@[q as int].0@),
        ));
        k = k + 1;
    }
    assert(selection@.subrange(0, k as int) =~= selection@);
    join_all(&names, "/")
}

/// The URIs of the tracks of the chosen groups, group after group.
pub open spec fn chosen_uris(
    tracks: Seq<Track>,
    groups: Seq<(String, Vec<usize>)>,
    selection: Seq<usize>,
) -> Seq<Seq<char>> {
    selection.map_values(
        |k: usize| groups[k as int].1@.map_values(|p: usize| tracks[p as int].uri@),
    ).flatten()
}

/// The URIs of the tracks in the chosen groups, group after group.
pub fn selected_uris(
    tracks: &Vec<Track>,
    groups: &Vec<(String, Vec<usize>)>,
    selection: &Vec<usize>,
) -> (r: Vec<String>)
    requires
        forall|k: int| 0 <= k < selection@.len() ==> (#[trigger] selection@[k] as int) < groups@.len(),
        forall|m: int, q: int|
            0 <= m < groups@.len() && 0 <= q < groups@[m].1@.len() ==> (#[trigger] groups@[m].1@[q]
                as int) < tracks@.len(),
    ensures
        string_views(r@) == chosen_uris(tracks@, groups@, selection@),
{
    let mut out: Vec<String> = Vec::new();
    let mut k: usize = 0;
    while k < selection.len()
        invariant
            k <= selection@.len(),
            forall|q: int| 0 <= q < selection@.len() ==> (#[trigger] selection@[q] as int) < groups@.len(),
            forall|m: int, q: int|
                0 <= m < groups@.len() && 0 <= q < groups@[m].1@.len() ==> (
                #[trigger] groups@[m].1@[q] as int) < tracks@.len(),
            string_views(out@) == chosen_uris(tracks@, groups@, selection@.subrange(0, k as int)),
        decreases selection.len() - k,
    {
        let positions = &groups[selection[k]].1;
        let ghost done = string_views(out@);
        let ghost part = positions@.map_values(|p: usize| tracks@[p as int].uri@);
        let mut j: usize = 0;
        while j < positions.len()
            invariant
                j <= positions@.len(),
                k < selection@.len(),
                positions@ == groups@[selection@[k as int] as int].1@,
                (selection@[k as int] as int) < groups@.len(),
                forall|m: int, q: int|
                    0 <= m < groups@.len() && 0 <= q < groups@[m].1@.len() ==> (
                    #[trigger] groups@[m].1@[q] as int) < tracks@.len(),
                part == positions@.map_values(|p: usize| tracks@[p as int].uri@),
                string_views(out@) == done + part.subrange(0, j as int),
            decreases positions.len() - j,
        {
            let ghost before = out@;
            assert((positions@[j as int] as int) < tracks@.len());
            out.push(tracks[positions[j]].uri.clone());
            assert(string_views(out@) =~= string_views(before).push(part[j as int]));
            assert(part.subrange(0, j + 1) =~= part.subrange(0, j as int).push(part[j as int]));
            j = j + 1;
        }
        let ghost f = |q: usize| groups@[q as int].1@.map_values(|p: usize| tracks@[p as int].uri@);
        assert(selection@.subrange(0, k + 1).map_values(f) =~= selection@.subrange(0, k as int).map_values(
            f,
        ).push(part));
        proof {
            selection@.subrange(0, k as int).map_values(f).lemma_flatten_push(part);
        }
        assert(part.subrange(0, j as int) =~= part);
        k = k + 1;
    }
    assert(selection@.subrange(0, k as int) =~= selection@);
    out
}

} // verus!
