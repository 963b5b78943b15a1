//! The overview of a library: how many songs, albums and artists it holds,
//! and its artists ranked by how many songs they appear on.
use vstd::prelude::*;

use crate::cmds::grouping::{
    first_keys, group_positions, is_grouping, lemma_first_keys_contains, order_by_rank,
    positions_of, positions_view, rank_before,
};
use crate::cmds::spotify_api::{SimplifiedArtist, Track};
use crate::text::string_views;
use crate::text::{decimal, decimal_string};

verus! {

broadcast use vstd::seq_lib::group_seq_properties;

/// How many artists the overview lists at most.
pub const TOP_ARTISTS: usize = 50;

/// Every artist entry of every track, track after track.
pub open spec fn artist_entries(tracks: Seq<Track>) -> Seq<SimplifiedArtist>
    decreases tracks.len(),
{
    if tracks.len() == 0 {
        Seq::empty()
    } else {
        artist_entries(tracks.drop_last()) + tracks.last().artists@
    }
}

/// The ids of the artist entries.
pub open spec fn artist_ids(tracks: Seq<Track>) -> Seq<Seq<char>> {
    artist_entries(tracks).map_values(|a: SimplifiedArtist| a.id@)
}

/// The album id of each track.
pub open spec fn album_ids(tracks: Seq<Track>) -> Seq<Seq<char>> {
    tracks.map_values(|t: Track| t.album.id@)
}

/// The artist with id `id` as the library counts it: the name of its first
/// entry and the number of its entries.
pub open spec fn artist_count(tracks: Seq<Track>, id: Seq<char>) -> (Seq<char>, nat) {
    let at = positions_of(artist_ids(tracks), id);
    (artist_entries(tracks)[at[0]].name@, at.len())
}

/// `artists` lists the distinct artists of `tracks` with their counts, the
/// `k`-th being the `order[k]`-th to first appear: most songs first and,
/// among equal counts, the one that appears first.
pub open spec fn ranked_as(tracks: Seq<Track>, artists: Seq<NamedCounter>, order: Seq<int>) -> bool {
    let ids = first_keys(artist_ids(tracks));
    &&& order.len() == ids.len()
    &&& artists.len() == ids.len()
    &&& order.no_duplicates()
    &&& forall|k: int|
        0 <= k < order.len() ==> 0 <= #[trigger] order[k] < ids.len() && (
        artists[k].name@,
        artists[k].counter as nat,
    ) == artist_count(tracks, ids[order[k]])
    &&& forall|a: int, b: int|
        0 <= a < b < order.len() ==> artist_count(tracks, ids[order[a]]).1 > artist_count(
            tracks,
            ids[order[b]],
        ).1 || (artist_count(tracks, ids[order[a]]).1 == artist_count(tracks, ids[order[b]]).1
            && order[a] < order[b])
}

/// A name with a count.
pub struct NamedCounter {
    pub name: String,
    pub counter: usize,
}

/// The overview of a library.
pub struct LibrarySummary {
    pub songs: usize,
    pub albums: usize,
    /// The artists, most songs first; among equal counts, in order of first
    /// appearance.
    pub artists: Vec<NamedCounter>,
}

/// The occurrences of `k` lie within `keys` and hold `k`; a key that occurs
/// has at least one.
pub proof fn lemma_positions_valid(keys: Seq<Seq<char>>, k: Seq<char>)
    ensures
        forall|m: int|
            0 <= m < positions_of(keys, k).len() ==> 0 <= #[trigger] positions_of(keys, k)[m]
                < keys.len() && keys[positions_of(keys, k)[m]] == k,
        keys.contains(k) ==> positions_of(keys, k).len() > 0,
    decreases keys.len(),
{
    if keys.len() > 0 {
        lemma_positions_valid(keys.drop_last(), k);
        let before = positions_of(keys.drop_last(), k);
        assert forall|m: int| 0 <= m < positions_of(keys, k).len() implies 0
            <= #[trigger] positions_of(keys, k)[m] < keys.len() && keys[positions_of(keys, k)[m]]
            == k by {
            if m < before.len() {
                assert(positions_of(keys, k)[m] == before[m]);
                assert(keys.drop_last()[before[m]] == k);
            }
        }
        if keys.contains(k) && keys.last() != k {
            let i = choose|i: int| 0 <= i < keys.len() && keys[i] == k;
            assert(keys.drop_last()[i] == k);
        }
    }
}

/// The ids and names of all artist entries, in order.
fn collect_artists(tracks: &Vec<Track>) -> (r: (Vec<String>, Vec<String>))
    ensures
        string_views(r.0@) == artist_ids(tracks@),
        string_views(r.1@) == artist_entries(tracks@).map_values(|a: SimplifiedArtist| a.name@),
{
    let mut ids: Vec<String> = Vec::new();
    let mut names: Vec<String> = Vec::new();
    let mut i: usize = 0;
    while i < tracks.len()
        invariant
            i <= tracks@.len(),
            string_views(ids@) == artist_ids(tracks@.subrange(0, i as int)),
            string_views(names@) == artist_entries(tracks@.subrange(0, i as int)).map_values(
                |a: SimplifiedArtist| a.name@,
            ),
        decreases tracks.len() - i,
    {
        let ghost done = artist_entries(tracks@.subrange(0, i as int));
        let artists = &tracks[i].artists;
        let mut j: usize = 0;
        while j < artists.len()
            invariant
                i < tracks@.len(),
                artists@ == tracks@[i as int].artists@,
                j <= artists@.len(),
                string_views(ids@) == (done + artists@.subrange(0, j as int)).map_values(
                    |a: SimplifiedArtist| a.id@,
                ),
                string_views(names@) == (done + artists@.subrange(0, j as int)).map_values(
                    |a: SimplifiedArtist| a.name@,
                ),
            decreases artists.len() - j,
        {
            let ghost (before_ids, before_names) = (ids@, names@);
            ids.push(artists[j].id.clone());
            names.push(artists[j].name.clone());
            assert(done + artists@.subrange(0, j + 1) =~= (done + artists@.subrange(0, j as int)).push(
                artists@[j as int],
            ));
            assert(string_views(ids@) =~= string_views(before_ids).push(artists@[j as int].id@));
            assert(string_views(names@) =~= string_views(before_names).push(artists@[j as int].name@));
            j = j + 1;
        }
        assert(tracks@.subrange(0, i + 1).drop_last() =~= tracks@.subrange(0, i as int));
        assert(artists@.subrange(0, j as int) =~= artists@);
        i = i + 1;
    }
    assert(tracks@.subrange(0, i as int) =~= tracks@);
    (ids, names)
}

/// The overview of the library `tracks`.
pub fn library_summary(tracks: &Vec<Track>) -> (r: LibrarySummary)
    ensures
        r.songs == tracks@.len(),
        r.albums == first_keys(album_ids(tracks@)).len(),
        r.artists@.len() == first_keys(artist_ids(tracks@)).len(),
        exists|order: Seq<int>| #[trigger] ranked_as(tracks@, r.artists@, order),
{
    let (ids, names) = collect_artists(tracks);
    let groups = group_positions(&ids);
    let ghost keys = artist_ids(tracks@);
    let ghost g = first_keys(keys);

    let mut album_keys: Vec<String> = Vec::new();
    let mut i: usize = 0;
    while i < tracks.len()
        invariant
            i <= tracks@.len(),
            string_views(album_keys@) == album_ids(tracks@.subrange(0, i as int)),
        decreases tracks.len() - i,
    {
        let ghost before = album_keys@;
        album_keys.push(tracks[i].album.id.clone());
        assert(string_views(album_keys@) =~= string_views(before).push(tracks@[i as int].album.id@));
        assert(album_ids(tracks@.subrange(0, i + 1)) =~= album_ids(tracks@.subrange(0, i as int)).push(
            tracks@[i as int].album.id@,
        ));
        i = i + 1;
    }
    assert(tracks@.subrange(0, i as int) =~= tracks@);
    let albums = group_positions(&album_keys);

    let mut counts: Vec<NamedCounter> = Vec::new();
    let mut ranks: Vec<u64> = Vec::new();
    let mut j: usize = 0;
    while j < groups.len()
        invariant
            j <= groups@.len(),
            is_grouping(groups@, keys),
            keys == string_views(ids@),
            g == first_keys(keys),
            string_views(names@) == artist_entries(tracks@).map_values(|a: SimplifiedArtist| a.name@),
            keys == artist_ids(tracks@),
            counts@.len() == j,
            ranks@.len() == j,
            forall|m: int|
                0 <= m < j ==> ((#[trigger] counts@[m]).name@, counts@[m].counter as nat)
                    == artist_count(tracks@, g[m]) && ranks@[m] == u64::MAX - counts@[m].counter,
        decreases groups.len() - j,
    {
        let ghost key = g[j as int];
        proof {
            assert(g.contains(key));
            lemma_first_keys_contains(keys, key);
            lemma_positions_valid(keys, key);
            assert(positions_view(groups@[j as int].1@) == positions_of(keys, key));
        }
        let positions = &groups[j].1;
        assert(positions@.len() == positions_of(keys, key).len());
        let first = positions[0];
        assert(first as int == positions_of(keys, key)[0]);
        assert(string_views(names@).len() == names@.len());
        assert(artist_entries(tracks@).map_values(|a: SimplifiedArtist| a.name@).len()
            == artist_entries(tracks@).len());
        assert(keys.len() == ids@.len());
        let count = positions.len();
        assert(artist_entries(tracks@).map_values(|a: SimplifiedArtist| a.name@)[first as int]
            == names@[first as int]@);
        counts.push(NamedCounter { name: names[first].clone(), counter: count });
        ranks.push(u64::MAX - count as u64);
        j = j + 1;
    }

    let order = order_by_rank(&ranks);
    let mut artists: Vec<NamedCounter> = Vec::new();
    let mut k: usize = 0;
    while k < order.len()
        invariant
            k <= order@.len(),
            order@.len() == ranks@.len(),
            ranks@.len() == counts@.len(),
            forall|m: int| 0 <= m < order@.len() ==> (#[trigger] order@[m] as int) < ranks@.len(),
            artists@.len() == k,
            forall|m: int|
                0 <= m < k ==> (#[trigger] artists@[m].name@, artists@[m].counter)
                    == (counts@[order@[m] as int].name@, counts@[order@[m] as int].counter),
        decreases order.len() - k,
    {
        let c = &counts[order[k]];
        artists.push(NamedCounter { name: c.name.clone(), counter: c.counter });
        k = k + 1;
    }
    let ghost witness = order@.map_values(|p: usize| p as int);
    assert(witness.no_duplicates()) by {
        assert forall|a: int, b: int| 0 <= a < witness.len() && 0 <= b < witness.len() && a != b implies witness[a]
            != witness[b] by {
            assert(order@[a] != order@[b]);
        }
    }
    assert forall|a: int, b: int| 0 <= a < b < witness.len() implies artist_count(
        tracks@,
        g[witness[a]],
    ).1 > artist_count(tracks@, g[witness[b]]).1 || (artist_count(tracks@, g[witness[a]]).1
        == artist_count(tracks@, g[witness[b]]).1 && witness[a] < witness[b]) by {
        let oa = order@[a] as int;
        let ob = order@[b] as int;
        assert(witness[a] == oa && witness[b] == ob);
        assert(rank_before(ranks@, oa, ob));
        assert(counts@[oa].counter as nat == artist_count(tracks@, g[oa]).1);
        assert(counts@[ob].counter as nat == artist_count(tracks@, g[ob]).1);
    }
    assert(ranked_as(tracks@, artists@, witness));
    let r = LibrarySummary { songs: tracks.len(), albums: albums.len(), artists };
    assert(ranked_as(tracks@, r.artists@, witness));
    r
}

impl NamedCounter {
    /// The line showing this artist in the overview.
    pub fn to_line(&self) -> (r: String)
        ensures
            r@ == self.name@ + " - "@ + decimal(self.counter as nat) + " songs"@,
    {
        let mut line = self.name.clone();
        line.append(" - ");
        line.append(decimal_string(self.counter as u64).as_str());
        line.append(" songs");
        line
    }
}

impl LibrarySummary {
    /// The sentence that sums up the library.
    pub fn headline(&self) -> (r: String)
        ensures
            r@ == "Your library contains "@ + decimal(self.songs as nat) + " songs from "@
                + decimal(self.albums as nat) + " albums by "@ + decimal(
                self.artists@.len() as nat,
            ) + " artists."@,
    {
        let mut line = String::from_str("Your library contains ");
        line.append(decimal_string(self.songs as u64).as_str());
        line.append(" songs from ");
        line.append(decimal_string(self.albums as u64).as_str());
        line.append(" albums by ");
        line.append(decimal_string(self.artists.len() as u64).as_str());
        line.append(" artists.");
        line
    }

    /// The lines of the most liked artists, at most `TOP_ARTISTS` of them.
    pub fn top_lines(&self) -> (r: Vec<String>)
        ensures
            r@.len() == if self.artists@.len() < TOP_ARTISTS {
                self.artists@.len()
            } else {
                TOP_ARTISTS as nat
            },
            forall|k: int|
                0 <= k < r@.len() ==> (#[trigger] r@[k])@ == self.artists@[k].name@ + " - "@
                    + decimal(self.artists@[k].counter as nat) + " songs"@,
    {
        let mut lines: Vec<String> = Vec::new();
        let mut k: usize = 0;
        while k < self.artists.len() && k < TOP_ARTISTS
            invariant
                k <= self.artists@.len(),
                k <= TOP_ARTISTS,
                lines@.len() == k,
                forall|m: int|
                    0 <= m < k ==> (#[trigger] lines@[m])@ == self.artists@[m].name@ + " - "@
                        + decimal(self.artists@[m].counter as nat) + " songs"@,
            decreases TOP_ARTISTS - k,
        {
            lines.push(self.artists[k].to_line());
            k = k + 1;
        }
        lines
    }
}

} // verus!
