//! The saved tracks grouped by the genres of their first artist.
use vstd::prelude::*;

use crate::cmds::decades::{chosen_uris, selected_uris};
use crate::cmds::grouping::{
    first_keys, group_positions, is_grouping, lemma_first_keys_contains, lemma_positions_absent,
    order_by_rank, positions_of, positions_view, rank_before, unique_strings,
};
use crate::cmds::spotify_api::{FullArtist, Track, ARTISTS_INFO};
use crate::cmds::sync::{chunks, is_chunking, lemma_chunking_map, mapped_chunks};
use crate::text::string_views;
use crate::text::{decimal, decimal_string, join_all, joined, str_eq};

verus! {

broadcast use vstd::seq_lib::group_seq_properties;

/// Most artists that one lookup may name.
pub const ARTISTS_CHUNK: usize = 50;

/// Most artist names shown beside a genre.
pub const SHOWN_ARTISTS: usize = 5;

/// An artist as a genre lists it: id and name.
pub type ArtistRef = (Seq<char>, Seq<char>);

/// A genre and the artists filed under it.
pub type GenreEntry = (Seq<char>, Seq<ArtistRef>);

/// Whether every track lists at least one artist.
pub open spec fn credited(tracks: Seq<Track>) -> bool {
    forall|i: int| 0 <= i < tracks.len() ==> (#[trigger] tracks[i]).artists@.len() > 0
}

/// The id of each track's first artist.
pub open spec fn first_artist_ids(tracks: Seq<Track>) -> Seq<Seq<char>> {
    tracks.map_values(|t: Track| t.artists@[0].id@)
}

/// The ids of each track's first artist, in track order.
pub fn first_artist_id_list(tracks: &Vec<Track>) -> (r: Vec<String>)
    requires
        credited(tracks@),
    ensures
        string_views(r@) == first_artist_ids(tracks@),
{
    let mut ids: Vec<String> = Vec::new();
    let mut i: usize = 0;
    while i < tracks.len()
        invariant
            i <= tracks@.len(),
            credited(tracks@),
            string_views(ids@) == first_artist_ids(tracks@).subrange(0, i as int),
        decreases tracks.len() - i,
    {
        assert(tracks@[i as int].artists@.len() > 0);
        let ghost before = ids@;
        ids.push(tracks[i].artists[0].id.clone());
        assert(string_views(ids@) =~= string_views(before).push(first_artist_ids(tracks@)[i as int]));
        assert(first_artist_ids(tracks@).subrange(0, i + 1) =~= first_artist_ids(tracks@).subrange(
            0,
            i as int,
        ).push(first_artist_ids(tracks@)[i as int]));
        i = i + 1;
    }
    assert(first_artist_ids(tracks@).subrange(0, i as int) =~= first_artist_ids(tracks@));
    ids
}

/// The lookup URL for a batch of artist ids.
pub open spec fn lookup_url(ids: Seq<Seq<char>>) -> Seq<char> {
    ARTISTS_INFO@ + "?ids="@ + joined(ids, ","@)
}

/// The URLs that look up every distinct first artist, in order of first
/// appearance, `ARTISTS_CHUNK` to a request.
pub fn artist_lookups(tracks: &Vec<Track>) -> (r: Vec<String>)
    requires
        credited(tracks@),
    ensures
        exists|batches: Seq<Seq<Seq<char>>>|
            #[trigger] is_chunking(batches, first_keys(first_artist_ids(tracks@)), ARTISTS_CHUNK as nat)
                && string_views(r@) == batches.map_values(|b: Seq<Seq<char>>| lookup_url(b)),
{
    let ids = first_artist_id_list(tracks);
    let groups = group_positions(&ids);
    let ghost fk = first_keys(string_views(ids@));
    let mut distinct: Vec<String> = Vec::new();
    let mut j: usize = 0;
    while j < groups.len()
        invariant
            j <= groups@.len(),
            is_grouping(groups@, string_views(ids@)),
            fk == first_keys(string_views(ids@)),
            string_views(distinct@) == fk.subrange(0, j as int),
        decreases groups.len() - j,
    {
        let ghost before = distinct@;
        distinct.push(groups[j].0.clone());
        assert(string_views(distinct@) =~= string_views(before).push(fk[j as int]));
        assert(fk.subrange(0, j + 1) =~= fk.subrange(0, j as int).push(fk[j as int]));
        j = j + 1;
    }
    assert(fk.subrange(0, j as int) =~= fk);
    let ghost flat = distinct@;
    let batches = chunks(distinct, ARTISTS_CHUNK);
    proof {
        lemma_chunking_map(batches@, flat, ARTISTS_CHUNK as nat, |s: String| s@);
    }
    let ghost bv = mapped_chunks(batches@, |s: String| s@);
    let mut urls: Vec<String> = Vec::new();
    let mut k: usize = 0;
    while k < batches.len()
        invariant
            k <= batches@.len(),
            bv == mapped_chunks(batches@, |s: String| s@),
            string_views(urls@) == bv.subrange(0, k as int).map_values(|b: Seq<Seq<char>>| lookup_url(b)),
        decreases batches.len() - k,
    {
        let mut url = String::from_str(ARTISTS_INFO);
        url.append("?ids=");
        let list = join_all(&batches[k], ",");
        url.append(list.as_str());
        let ghost before = urls@;
        assert(string_views(batches@[k as int]@) == bv[k as int]);
        urls.push(url);
        assert(string_views(urls@) =~= string_views(before).push(lookup_url(bv[k as int])));
        assert(bv.subrange(0, k + 1) =~= bv.subrange(0, k as int).push(bv[k as int]));
        k = k + 1;
    }
    assert(bv.subrange(0, k as int) =~= bv);
    assert(is_chunking(bv, fk, ARTISTS_CHUNK as nat));
    urls
}

/// The position of the entry with key `key`, the first one if several.
pub open spec fn find_key(m: Seq<GenreEntry>, key: Seq<char>) -> Option<int>
    decreases m.len(),
{
    if m.len() == 0 {
        None
    } else if m[0].0 == key {
        Some(0)
    } else {
        match find_key(m.drop_first(), key) {
            Some(i) => Some(i + 1),
            None => None,
        }
    }
}

/// `m` with `a` added to the artists of `key`, or a new entry for it at the end.
pub open spec fn add_artist(m: Seq<GenreEntry>, key: Seq<char>, a: ArtistRef) -> Seq<GenreEntry> {
    match find_key(m, key) {
        Some(i) => m.update(i, (key, m[i].1.push(a))),
        None => m.push((key, seq![a])),
    }
}

/// `m` with the artists of `key` replaced by `a` alone, or a new entry for
/// it at the end.
pub open spec fn set_artist(m: Seq<GenreEntry>, key: Seq<char>, a: ArtistRef) -> Seq<GenreEntry> {
    match find_key(m, key) {
        Some(i) => m.update(i, (key, seq![a])),
        None => m.push((key, seq![a])),
    }
}

/// `m` after artist `a` was filed under its first `n` genres.
pub open spec fn file_genres(m: Seq<GenreEntry>, a: FullArtist, n: nat) -> Seq<GenreEntry>
    decreases n,
{
    if n == 0 {
        m
    } else {
        add_artist(file_genres(m, a, (n - 1) as nat), a.genres@[n - 1]@, (a.id@, a.name@))
    }
}

/// `m` after artist `a` was taken in: filed under each of its genres, then
/// under its own name alone.
pub open spec fn take_artist(m: Seq<GenreEntry>, a: FullArtist) -> Seq<GenreEntry> {
    set_artist(file_genres(m, a, a.genres@.len()), a.name@, (a.id@, a.name@))
}

/// The genre index after the first `n` looked-up artists were taken in.
pub open spec fn genre_index(artists: Seq<FullArtist>, n: nat) -> Seq<GenreEntry>
    decreases n,
{
    if n == 0 {
        Seq::empty()
    } else {
        take_artist(genre_index(artists, (n - 1) as nat), artists[n - 1])
    }
}

/// The genre index of a Vec, as chars.
pub open spec fn index_view(v: Seq<(String, Vec<(String, String)>)>) -> Seq<GenreEntry> {
    v.map_values(
        |e: (String, Vec<(String, String)>)|
            (e.0@, e.1@.map_values(|p: (String, String)| (p.0@, p.1@))),
    )
}

proof fn lemma_find_key(m: Seq<GenreEntry>, key: Seq<char>, j: int)
    requires
        0 <= j <= m.len(),
        forall|q: int| 0 <= q < j ==> m[q].0 != key,
    ensures
        j < m.len() && m[j].0 == key ==> find_key(m, key) == Some(j),
        j == m.len() ==> find_key(m, key) is None,
    decreases m.len(),
{
    if j > 0 {
        lemma_find_key(m.drop_first(), key, j - 1);
    }
}

/// Files artist `(id, name)` under `key`: added to its artists, or replacing
/// them when `replace`.
fn file_under(
    index: &mut Vec<(String, Vec<(String, String)>)>,
    key: &String,
    id: &String,
    name: &String,
    replace: bool,
)
    ensures
        index_view(final(index)@) == if replace {
            set_artist(index_view(old(index)@), key@, (id@, name@))
        } else {
            add_artist(index_view(old(index)@), key@, (id@, name@))
        },
{
    let ghost m = index_view(index@);
    let mut j: usize = 0;
    while j < index.len()
        invariant
            j <= index@.len(),
            index@ == old(index)@,
            m == index_view(index@),
            forall|q: int| 0 <= q < j ==> m[q].0 != key@,
        decreases index.len() - j,
    {
        if str_eq(index[j].0.as_str(), key.as_str()) {
            proof {
                lemma_find_key(m, key@, j as int);
            }
            let (k, mut artists) = index.remove(j);
            let ghost old_artists = artists@;
            if replace {
                artists = Vec::new();
            }
            artists.push((id.clone(), name.clone()));
            let ghost entry = (
                key@,
                if replace {
                    seq![(id@, name@)]
                } else {
                    m[j as int].1.push((id@, name@))
                },
            );
            assert(artists@.map_values(|p: (String, String)| (p.0@, p.1@)) =~= entry.1);
            index.insert(j, (k, artists));
            assert(index_view(index@)[j as int] == entry);
            assert(index_view(index@) =~= m.update(
                j as int,
                (
                    key@,
                    if replace {
                        seq![(id@, name@)]
                    } else {
                        m[j as int].1.push((id@, name@))
                    },
                ),
            ));
            assert(find_key(m, key@) == Some(j as int));
            if replace {
                assert(index_view(index@) == set_artist(m, key@, (id@, name@)));
            } else {
                assert(index_view(index@) == add_artist(m, key@, (id@, name@)));
            }
            return;
        }
        j = j + 1;
    }
    proof {
        lemma_find_key(m, key@, j as int);
    }
    let mut artists: Vec<(String, String)> = Vec::new();
    artists.push((id.clone(), name.clone()));
    assert(artists@.map_values(|p: (String, String)| (p.0@, p.1@)) =~= seq![(id@, name@)]);
    index.push((key.clone(), artists));
    assert(index_view(index@) =~= m.push((key@, seq![(id@, name@)])));
}

/// The genre index built from the looked-up artists, in order: each artist
/// is filed under each of its genres, then under its own name alone.
pub fn build_genre_index(artists: &Vec<FullArtist>) -> (r: Vec<(String, Vec<(String, String)>)>)
    ensures
        index_view(r@) == genre_index(artists@, artists@.len()),
{
    let mut index: Vec<(String, Vec<(String, String)>)> = Vec::new();
    let mut i: usize = 0;
    while i < artists.len()
        invariant
            i <= artists@.len(),
            index_view(index@) == genre_index(artists@, i as nat),
        decreases artists.len() - i,
    {
        let a = &artists[i];
        let ghost start = index_view(index@);
        let mut g: usize = 0;
        while g < a.genres.len()
            invariant
                g <= a.genres@.len(),
                index_view(index@) == file_genres(start, *a, g as nat),
            decreases a.genres.len() - g,
        {
            file_under(&mut index, &a.genres[g], &a.id, &a.name, false);
            g = g + 1;
        }
        file_under(&mut index, &a.name, &a.id, &a.name, true);
        i = i + 1;
    }
    index
}

/// The positions of the tracks whose first artist is filed under entry `e`,
/// artist after artist.
pub open spec fn genre_tracks(first_ids: Seq<Seq<char>>, e: GenreEntry) -> Seq<int> {
    e.1.map_values(|a: ArtistRef| positions_of(first_ids, a.0)).flatten()
}

/// The names of the artists filed under entry `e`.
pub open spec fn genre_artists(e: GenreEntry) -> Seq<Seq<char>> {
    e.1.map_values(|a: ArtistRef| a.1)
}

/// The genres offered: each with the positions of its tracks, and the names
/// of its artists beside it.
pub struct GenreChoices {
    pub groups: Vec<(String, Vec<usize>)>,
    pub artists: Vec<Vec<String>>,
}

/// `c` lists the entries of `index`, the `k`-th being entry `order[k]`: most
/// tracks first and, among equal counts, the entry that came first.
pub open spec fn genres_ranked_as(
    first_ids: Seq<Seq<char>>,
    index: Seq<GenreEntry>,
    c: GenreChoices,
    order: Seq<int>,
) -> bool {
    &&& order.len() == index.len()
    &&& c.groups@.len() == index.len()
    &&& c.artists@.len() == index.len()
    &&& order.no_duplicates()
    &&& forall|k: int|
        0 <= k < order.len() ==> 0 <= #[trigger] order[k] < index.len() && c.groups@[k].0@
            == index[order[k]].0 && positions_view(c.groups@[k].1@) == genre_tracks(
            first_ids,
            index[order[k]],
        ) && string_views(c.artists@[k]@) == genre_artists(index[order[k]])
    &&& forall|a: int, b: int|
        0 <= a < b < order.len() ==> genre_tracks(first_ids, index[order[a]]).len()
            > genre_tracks(first_ids, index[order[b]]).len() || (genre_tracks(
            first_ids,
            index[order[a]],
        ).len() == genre_tracks(first_ids, index[order[b]]).len() && order[a] < order[b])
}

/// The tracks and artist names of one genre entry.
fn genre_entry(
    ids: &Vec<String>,
    groups: &Vec<(String, Vec<usize>)>,
    entry: &(String, Vec<(String, String)>),
) -> (r: ((String, Vec<usize>), Vec<String>))
    requires
        is_grouping(groups@, string_views(ids@)),
    ensures
        r.0.0@ == entry.0@,
        positions_view(r.0.1@) == genre_tracks(
            string_views(ids@),
            (entry.0@, entry.1@.map_values(|p: (String, String)| (p.0@, p.1@))),
        ),
        string_views(r.1@) == genre_artists(
            (entry.0@, entry.1@.map_values(|p: (String, String)| (p.0@, p.1@))),
        ),
{
    let ghost keys = string_views(ids@);
    let ghost refs = entry.1@.map_values(|p: (String, String)| (p.0@, p.1@));
    let ghost f = |a: ArtistRef| positions_of(keys, a.0);
    let mut positions: Vec<usize> = Vec::new();
    let mut names: Vec<String> = Vec::new();
    let mut i: usize = 0;
    while i < entry.1.len()
        invariant
            i <= entry.1@.len(),
            is_grouping(groups@, keys),
            keys == string_views(ids@),
            refs == entry.1@.map_values(|p: (String, String)| (p.0@, p.1@)),
            f == |a: ArtistRef| positions_of(keys, a.0),
            positions_view(positions@) == refs.subrange(0, i as int).map_values(f).flatten(),
            string_views(names@) == refs.subrange(0, i as int).map_values(|a: ArtistRef| a.1),
        decreases entry.1.len() - i,
    {
        let id = &entry.1[i].0;
        let ghost before = positions_view(positions@);
        let ghost at = positions_of(keys, id@);
        let mut j: usize = 0;
        let mut found = false;
        while j < groups.len() && !found
            invariant
                j <= groups@.len(),
                is_grouping(groups@, keys),
                at == positions_of(keys, id@),
                !found ==> forall|q: int| 0 <= q < j ==> groups@[q].0@ != id@,
                !found ==> positions_view(positions@) == before,
                found ==> positions_view(positions@) == before + at,
            decreases groups.len() - j + if found { 0int } else { 1int },
        {
            if str_eq(groups[j].0.as_str(), id.as_str()) {
                let ps = &groups[j].1;
                assert(positions_view(ps@) == at);
                let mut q: usize = 0;
                while q < ps.len()
                    invariant
                        q <= ps@.len(),
                        positions_view(ps@) == at,
                        positions_view(positions@) == before + at.subrange(0, q as int),
                    decreases ps.len() - q,
                {
                    let ghost b = positions@;
                    positions.push(ps[q]);
                    assert(positions_view(positions@) =~= positions_view(b).push(at[q as int]));
                    assert(at.subrange(0, q + 1) =~= at.subrange(0, q as int).push(at[q as int]));
                    q = q + 1;
                }
                assert(at.subrange(0, q as int) =~= at);
                found = true;
            } else {
                j = j + 1;
            }
        }
        if !found {
            proof {
                assert(!first_keys(keys).contains(id@)) by {
                    if first_keys(keys).contains(id@) {
                        let m = choose|m: int| 0 <= m < first_keys(keys).len() && first_keys(keys)[m] == id@;
                        assert(groups@[m].0@ == id@);
                    }
                }
                lemma_first_keys_contains(keys, id@);
                lemma_positions_absent(keys, id@);
                assert(before + at =~= before);
            }
        }
        let ghost nb = names@;
        names.push(entry.1[i].1.clone());
        assert(string_views(names@) =~= string_views(nb).push(refs[i as int].1));
        assert(refs.subrange(0, i + 1) =~= refs.subrange(0, i as int).push(refs[i as int]));
        assert(refs.subrange(0, i + 1).map_values(|a: ArtistRef| a.1) =~= refs.subrange(0, i as int).map_values(
            |a: ArtistRef| a.1,
        ).push(refs[i as int].1));
        assert(refs.subrange(0, i + 1).map_values(f) =~= refs.subrange(0, i as int).map_values(f).push(
            at,
        ));
        proof {
            refs.subrange(0, i as int).map_values(f).lemma_flatten_push(at);
        }
        i = i + 1;
    }
    assert(refs.subrange(0, i as int) =~= refs);
    ((entry.0.clone(), positions), names)
}

/// The genres of `index`, each with its tracks and artist names, most
/// tracks first; among equal counts, in the order of `index`.
pub fn rank_genres(tracks: &Vec<Track>, index: &Vec<(String, Vec<(String, String)>)>) -> (r:
    GenreChoices)
    requires
        credited(tracks@),
    ensures
        exists|order: Seq<int>|
            #[trigger] genres_ranked_as(first_artist_ids(tracks@), index_view(index@), r, order),
{
    let ids = first_artist_id_list(tracks);
    let groups = group_positions(&ids);
    let ghost keys = string_views(ids@);
    let ghost iv = index_view(index@);
    let mut ranks: Vec<u64> = Vec::new();
    let mut k: usize = 0;
    while k < index.len()
        invariant
            k <= index@.len(),
            is_grouping(groups@, keys),
            keys == string_views(ids@),
            iv == index_view(index@),
            ranks@.len() == k,
            forall|m: int| 0 <= m < k ==> #[trigger] ranks@[m] == u64::MAX - genre_tracks(keys, iv[m]).len(),
        decreases index.len() - k,
    {
        let (group, _names) = genre_entry(&ids, &groups, &index[k]);
        assert(iv[k as int] == (index@[k as int].0@, index@[k as int].1@.map_values(
            |p: (String, String)| (p.0@, p.1@),
        )));
        ranks.push(u64::MAX - group.1.len() as u64);
        k = k + 1;
    }
    let order = order_by_rank(&ranks);
    let mut chosen: Vec<(String, Vec<usize>)> = Vec::new();
    let mut artists: Vec<Vec<String>> = Vec::new();
    let mut m: usize = 0;
    while m < order.len()
        invariant
            m <= order@.len(),
            order@.len() == index@.len(),
            ranks@.len() == index@.len(),
            forall|q: int| 0 <= q < order@.len() ==> (#[trigger] order@[q] as int) < ranks@.len(),
            is_grouping(groups@, keys),
            keys == string_views(ids@),
            iv == index_view(index@),
            chosen@.len() == m,
            artists@.len() == m,
            forall|q: int|
                0 <= q < m ==> (#[trigger] chosen@[q]).0@ == iv[order@[q] as int].0 && positions_view(
                    chosen@[q].1@,
                ) == genre_tracks(keys, iv[order@[q] as int]) && string_views(artists@[q]@)
                    == genre_artists(iv[order@[q] as int]),
        decreases order.len() - m,
    {
        let (group, names) = genre_entry(&ids, &groups, &index[order[m]]);
        assert(iv[order@[m as int] as int] == (
            index@[order@[m as int] as int].0@,
            index@[order@[m as int] as int].1@.map_values(|p: (String, String)| (p.0@, p.1@)),
        ));
        chosen.push(group);
        artists.push(names);
        m = m + 1;
    }
    let r = GenreChoices { groups: chosen, artists };
    let ghost witness = order@.map_values(|p: usize| p as int);
    assert(witness.no_duplicates()) by {
        assert forall|a: int, b: int|
            0 <= a < witness.len() && 0 <= b < witness.len() && a != b implies witness[a]
            != witness[b] by {
            assert(order@[a] != order@[b]);
        }
    }
    assert forall|a: int, b: int| 0 <= a < b < witness.len() implies genre_tracks(
        keys,
        iv[witness[a]],
    ).len() > genre_tracks(keys, iv[witness[b]]).len() || (genre_tracks(keys, iv[witness[a]]).len()
        == genre_tracks(keys, iv[witness[b]]).len() && witness[a] < witness[b]) by {
        assert(rank_before(ranks@, order@[a] as int, order@[b] as int));
        assert(ranks@[order@[a] as int] == u64::MAX - genre_tracks(keys, iv[order@[a] as int]).len());
        assert(ranks@[order@[b] as int] == u64::MAX - genre_tracks(keys, iv[order@[b] as int]).len());
    }
    assert(genres_ranked_as(keys, iv, r, witness));
    r
}

/// The line offering a genre: its name, how many songs it holds, and its
/// first `SHOWN_ARTISTS` artists.
pub fn genre_label(genre: &str, songs: usize, artists: &Vec<String>) -> (r: String)
    ensures
        r@ == genre@ + " - "@ + decimal(songs as nat) + " songs ("@ + joined(
            string_views(artists@).take(
                if artists@.len() < SHOWN_ARTISTS {
                    artists@.len() as int
                } else {
                    SHOWN_ARTISTS as int
                },
            ),
            ", "@,
        ) + ")"@,
{
    let mut shown: Vec<String> = Vec::new();
    let mut k: usize = 0;
    while k < artists.len() && k < SHOWN_ARTISTS
        invariant
            k <= artists@.len(),
            k <= SHOWN_ARTISTS,
            string_views(shown@) == string_views(artists@).take(k as int),
        decreases SHOWN_ARTISTS - k,
    {
        let ghost before = shown@;
        shown.push(artists[k].clone());
        assert(string_views(shown@) =~= string_views(before).push(artists@[k as int]@));
        assert(string_views(artists@).take(k + 1) =~= string_views(artists@).take(k as int).push(
            artists@[k as int]@,
        ));
        k = k + 1;
    }
    let mut label = String::from_str(genre);
    label.append(" - ");
    label.append(decimal_string(songs as u64).as_str());
    label.append(" songs (");
    label.append(join_all(&shown, ", ").as_str());
    label.append(")");
    label
}

/// The default playlist name for the chosen genres: their names, separated
/// by "/".
pub fn genres_playlist_name(choices: &GenreChoices, selection: &Vec<usize>) -> (r: String)
    requires
        forall|k: int|
            0 <= k < selection@.len() ==> (#[trigger] selection@[k] as int) < choices.groups@.len(),
    ensures
        r@ == joined(selection@.map_values(|k: usize| choices.groups@[k as int].0@), "/"@),
{
    let mut names: Vec<String> = Vec::new();
    let mut k: usize = 0;
    while k < selection.len()
        invariant
            k <= selection@.len(),
            forall|q: int|
                0 <= q < selection@.len() ==> (#[trigger] selection@[q] as int)
                    < choices.groups@.len(),
            string_views(names@) == selection@.subrange(0, k as int).map_values(
                |q: usize| choices.groups@[q as int].0@,
            ),
        decreases selection.len() - k,
    {
        let ghost before = names@;
        names.push(choices.groups[selection[k]].0.clone());
        assert(string_views(names@) =~= string_views(before).push(
            choices.groups@[selection@[k as int] as int].0@,
        ));
        assert(selection@.subrange(0, k + 1) =~= selection@.subrange(0, k as int).push(
            selection@[k as int],
        ));
        k = k + 1;
    }
    assert(selection@.subrange(0, k as int) =~= selection@);
    join_all(&names, "/")
}

/// The URIs of the tracks of the chosen genres, genre after genre, each URI
/// once, where it first occurs.
pub fn genres_selected_uris(tracks: &Vec<Track>, choices: &GenreChoices, selection: &Vec<usize>) -> (r:
    Vec<String>)
    requires
        forall|k: int|
            0 <= k < selection@.len() ==> (#[trigger] selection@[k] as int) < choices.groups@.len(),
        forall|m: int, q: int|
            0 <= m < choices.groups@.len() && 0 <= q < choices.groups@[m].1@.len() ==> (
            #[trigger] choices.groups@[m].1@[q] as int) < tracks@.len(),
    ensures
        string_views(r@) == first_keys(chosen_uris(tracks@, choices.groups@, selection@)),
{
    unique_strings(selected_uris(tracks, &choices.groups, selection))
}

} // verus!
