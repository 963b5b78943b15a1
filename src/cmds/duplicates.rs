//! Duplicate detection over a track list: one track is kept for each pair of
//! artists and title, every other one is reported with its position.
use vstd::prelude::*;

use crate::cmds::spotify_api::{SimplifiedArtist, SimplifiedPlaylist, Track};
use crate::cmds::sync::{chunks, is_chunking, lemma_chunking_map, mapped_chunks};
use crate::text::{
    decimal, decimal_string, lemma_seq_less_asymmetric, seq_less, str_eq, str_less,
};

verus! {

/// The names of all artists of a track, written one after another in order.
pub open spec fn artist_key(artists: Seq<SimplifiedArtist>) -> Seq<char>
    decreases artists.len(),
{
    if artists.len() == 0 {
        Seq::empty()
    } else {
        artist_key(artists.drop_last()) + artists.last().name@
    }
}

/// The pair under which a track is grouped: its artist key and its title.
pub open spec fn group_of(t: Track) -> (Seq<char>, Seq<char>) {
    (artist_key(t.artists@), t.name@)
}

/// Whether a track of the same group that comes later replaces the one kept
/// so far: a full album wins over a single; otherwise the lower album id wins.
pub open spec fn incoming_preferred(kept: Track, incoming: Track) -> bool {
    let k = kept.album.album_type@;
    let n = incoming.album.album_type@;
    if k == "single"@ && n == "album"@ {
        true
    } else if k == "album"@ && n == "single"@ {
        false
    } else {
        seq_less(incoming.album.id@, kept.album.id@)
    }
}

/// For each group among the first `n` tracks, the position of its kept track.
pub open spec fn kept_after(tracks: Seq<Track>, n: nat) -> Map<(Seq<char>, Seq<char>), int>
    decreases n,
{
    if n == 0 {
        Map::empty()
    } else {
        let prev = kept_after(tracks, (n - 1) as nat);
        let i = n - 1;
        let g = group_of(tracks[i]);
        if !prev.contains_key(g) || incoming_preferred(tracks[prev[g]], tracks[i]) {
            prev.insert(g, i)
        } else {
            prev
        }
    }
}

/// The positions recorded as duplicates while the first `n` tracks are
/// processed, in the order in which they are found.
pub open spec fn duplicates_after(tracks: Seq<Track>, n: nat) -> Seq<int>
    decreases n,
{
    if n == 0 {
        Seq::empty()
    } else {
        let prev = kept_after(tracks, (n - 1) as nat);
        let found = duplicates_after(tracks, (n - 1) as nat);
        let i = n - 1;
        let g = group_of(tracks[i]);
        if !prev.contains_key(g) {
            found
        } else if incoming_preferred(tracks[prev[g]], tracks[i]) {
            found.push(prev[g])
        } else {
            found.push(i)
        }
    }
}

/// The name of a track's first artist, or nothing when it lists none.
pub open spec fn first_artist_name(t: Track) -> Seq<char> {
    if t.artists@.len() > 0 {
        t.artists@[0].name@
    } else {
        Seq::empty()
    }
}

impl Track {
    /// Whether the track's album is a full album.
    pub open spec fn album_type_is_album(self) -> bool {
        self.album.album_type@ == "album"@
    }
}

/// A track reported as a duplicate, with its position in the list it came from.
pub struct Duplicate {
    pub name: String,
    pub album: String,
    pub artist: String,
    pub id: String,
    pub uri: String,
    pub index: usize,
}

impl Duplicate {
    /// Whether this record describes track `t` found at position `index`.
    pub open spec fn describes(self, t: Track, index: int) -> bool {
        &&& self.name@ == t.name@
        &&& self.album@ == t.album.name@
        &&& self.artist@ == first_artist_name(t)
        &&& self.id@ == t.id@
        &&& self.uri@ == t.uri@
        &&& self.index == index
    }

    /// The record of a track found at a position.
    pub fn from_indexed_track(indexed_track: (usize, &Track)) -> (r: Duplicate)
        ensures
            r.describes(*indexed_track.1, indexed_track.0 as int),
    {
        let (index, track) = indexed_track;
        let artist = if track.artists.len() > 0 {
            track.artists[0].name.clone()
        } else {
            String::new()
        };
        Duplicate {
            name: track.name.clone(),
            album: track.album.name.clone(),
            artist,
            id: track.id.clone(),
            uri: track.uri.clone(),
            index,
        }
    }
}

/// The artist key of a track, built from its artists' names.
pub fn artist_key_of(artists: &Vec<SimplifiedArtist>) -> (r: String)
    ensures
        r@ == artist_key(artists@),
{
    let mut key = String::new();
    let mut i: usize = 0;
    while i < artists.len()
        invariant
            i <= artists@.len(),
            key@ == artist_key(artists@.subrange(0, i as int)),
        decreases artists.len() - i,
    {
        assert(artists@.subrange(0, i + 1).drop_last() =~= artists@.subrange(0, i as int));
        key.append(artists[i].name.as_str());
        i = i + 1;
    }
    assert(artists@.subrange(0, i as int) =~= artists@);
    key
}

/// Whether a later track of the same group replaces the one kept so far.
pub fn prefers_incoming(kept: &Track, incoming: &Track) -> (r: bool)
    ensures
        r == incoming_preferred(*kept, *incoming),
{
    let k = kept.album.album_type.as_str();
    let n = incoming.album.album_type.as_str();
    if str_eq(k, "single") && str_eq(n, "album") {
        true
    } else if str_eq(k, "album") && str_eq(n, "single") {
        false
    } else {
        str_less(incoming.album.id.as_str(), kept.album.id.as_str())
    }
}

/// What the groups found so far say about the first `n` tracks: group `j` has
/// artist key `keys[j]` and keeps track `kept[j]`, one entry per group.
pub open spec fn groups_match(
    tracks: Seq<Track>,
    n: nat,
    keys: Seq<String>,
    kept: Seq<usize>,
) -> bool {
    let m = kept_after(tracks, n);
    &&& keys.len() == kept.len()
    &&& forall|j: int| 0 <= j < kept.len() ==> (kept[j] as int) < n
    &&& forall|j: int|
        0 <= j < kept.len() ==> keys[j]@ == artist_key(tracks[kept[j] as int].artists@)
    &&& forall|j: int|
        0 <= j < kept.len() ==> #[trigger] m.contains_key(group_of(tracks[kept[j] as int]))
            && m[group_of(tracks[kept[j] as int])] == kept[j] as int
    &&& forall|g: (Seq<char>, Seq<char>)|
        #[trigger] m.contains_key(g) ==> exists|j: int|
            0 <= j < kept.len() && group_of(tracks[kept[j] as int]) == g
    &&& forall|j1: int, j2: int|
        0 <= j1 < kept.len() && 0 <= j2 < kept.len() && j1 != j2 ==> group_of(
            tracks[kept[j1] as int],
        ) != group_of(tracks[kept[j2] as int])
}

/// `kept` lists, once for each group of `tracks`, the position of the track
/// that the pass keeps for it.
pub open spec fn kept_positions(tracks: Seq<Track>, kept: Seq<usize>) -> bool {
    let m = kept_after(tracks, tracks.len());
    &&& forall|g: (Seq<char>, Seq<char>)|
        #[trigger] m.contains_key(g) ==> exists|j: int|
            0 <= j < kept.len() && group_of(tracks[kept[j] as int]) == g
    &&& forall|j: int|
        0 <= j < kept.len() ==> m.contains_key(group_of(tracks[#[trigger] kept[j] as int]))
            && m[group_of(tracks[kept[j] as int])] == kept[j] as int
}

/// One left-to-right pass over `tracks`: the position of the kept track of
/// each group, in the order in which the groups first appear, and the
/// duplicates in the order in which they are found.
pub fn partition_duplicates(tracks: &[Track]) -> (r: (Vec<usize>, Vec<Duplicate>))
    ensures
        kept_positions(tracks@, r.0@),
        r.1@.len() == duplicates_after(tracks@, tracks@.len()).len(),
        forall|k: int|
            0 <= k < r.1@.len() ==> #[trigger] r.1@[k].describes(
                tracks@[duplicates_after(tracks@, tracks@.len())[k]],
                duplicates_after(tracks@, tracks@.len())[k],
            ),
{
    let mut keys: Vec<String> = Vec::new();
    let mut kept: Vec<usize> = Vec::new();
    let mut duplicates: Vec<Duplicate> = Vec::new();
    let mut n: usize = 0;
    while n < tracks.len()
        invariant
            n <= tracks@.len(),
            groups_match(tracks@, n as nat, keys@, kept@),
            duplicates@.len() == duplicates_after(tracks@, n as nat).len(),
            forall|k: int|
                0 <= k < duplicates_after(tracks@, n as nat).len() ==> 0
                    <= #[trigger] duplicates_after(tracks@, n as nat)[k] < n,
            forall|k: int|
                0 <= k < duplicates@.len() ==> #[trigger] duplicates@[k].describes(
                    tracks@[duplicates_after(tracks@, n as nat)[k]],
                    duplicates_after(tracks@, n as nat)[k],
                ),
        decreases tracks.len() - n,
    {
        let track = &tracks[n];
        let key = artist_key_of(&track.artists);
        let ghost g = group_of(tracks@[n as int]);
        let ghost prev = kept_after(tracks@, n as nat);
        let mut found: Option<usize> = None;
        let mut j: usize = 0;
        while j < kept.len()
            invariant
                n < tracks@.len(),
                track == tracks@[n as int],
                key@ == g.0,
                g == group_of(tracks@[n as int]),
                prev == kept_after(tracks@, n as nat),
                groups_match(tracks@, n as nat, keys@, kept@),
                j <= kept@.len(),
                found is None ==> forall|i: int|
                    0 <= i < j ==> group_of(tracks@[kept@[i] as int]) != g,
                found matches Some(f) ==> f < kept@.len() && group_of(
                    tracks@[kept@[f as int] as int],
                ) == g,
            decreases kept.len() - j,
        {
            if found.is_none() {
                let k = kept[j];
                if keys[j] == key && tracks[k].name == track.name {
                    found = Some(j);
                }
            }
            j = j + 1;
        }
        let ghost next = kept_after(tracks@, (n + 1) as nat);
        let ghost old_kept = kept@;
        match found {
            None => {
                assert(!prev.contains_key(g));
                keys.push(key);
                kept.push(n);
                assert(next == prev.insert(g, n as int));
                assert(duplicates_after(tracks@, (n + 1) as nat) == duplicates_after(
                    tracks@,
                    n as nat,
                ));
                assert forall|h: (Seq<char>, Seq<char>)| #[trigger]
                    next.contains_key(h) implies exists|i: int|
                        0 <= i < kept@.len() && group_of(tracks@[kept@[i] as int]) == h by {
                    if h == g {
                        assert(group_of(tracks@[kept@[kept@.len() - 1] as int]) == h);
                    } else {
                        assert(prev.contains_key(h));
                        let i = choose|i: int|
                            0 <= i < old_kept.len() && group_of(tracks@[old_kept[i] as int]) == h;
                        assert(kept@[i] == old_kept[i]);
                        assert(group_of(tracks@[kept@[i] as int]) == h);
                    }
                }
            },
            Some(f) => {
                let k = kept[f];
                assert(prev.contains_key(g) && prev[g] == k as int);
                let ghost old_kept = kept@;
                if prefers_incoming(&tracks[k], track) {
                    duplicates.push(Duplicate::from_indexed_track((k, &tracks[k])));
                    kept.set(f, n);
                    assert(next == prev.insert(g, n as int));
                    assert forall|h: (Seq<char>, Seq<char>)| #[trigger]
                        next.contains_key(h) implies exists|i: int|
                            0 <= i < kept@.len() && group_of(tracks@[kept@[i] as int]) == h by {
                        if h == g {
                            assert(group_of(tracks@[kept@[f as int] as int]) == h);
                        } else {
                            assert(prev.contains_key(h));
                            let i = choose|i: int|
                                0 <= i < old_kept.len() && group_of(tracks@[old_kept[i] as int])
                                    == h;
                            assert(i != f);
                            assert(group_of(tracks@[kept@[i] as int]) == h);
                        }
                    }
                } else {
                    duplicates.push(Duplicate::from_indexed_track((n, track)));
                    assert(next == prev);
                }
            },
        }
        n = n + 1;
    }
    let ghost m = kept_after(tracks@, tracks@.len());
    assert(groups_match(tracks@, tracks@.len(), keys@, kept@));
    assert forall|h: (Seq<char>, Seq<char>)|
        #[trigger] m.contains_key(h) implies exists|j: int|
            0 <= j < kept@.len() && group_of(tracks@[kept@[j] as int]) == h by {
        assert(m.contains_key(h));
    }
    assert forall|j: int| 0 <= j < kept@.len() implies m[group_of(
        tracks@[#[trigger] kept@[j] as int],
    )] == kept@[j] as int by {
        assert(m.contains_key(group_of(tracks@[kept@[j] as int])));
    }
    assert(kept_positions(tracks@, kept@));
    (kept, duplicates)
}

/// The duplicates among `tracks`, in the order in which a left-to-right pass
/// finds them, each with its position in `tracks`.
pub fn find_duplicates(tracks: &[Track]) -> (r: Vec<Duplicate>)
    ensures
        r@.len() == duplicates_after(tracks@, tracks@.len()).len(),
        forall|k: int|
            0 <= k < r@.len() ==> #[trigger] r@[k].describes(
                tracks@[duplicates_after(tracks@, tracks@.len())[k]],
                duplicates_after(tracks@, tracks@.len())[k],
            ),
{
    let (_kept, duplicates) = partition_duplicates(tracks);
    duplicates
}

} // verus!

verus! {

/// Every group that has a kept track after `n` tracks is the group of one of
/// those first `n` tracks.
pub proof fn lemma_kept_groups_are_seen(tracks: Seq<Track>, n: nat)
    requires
        n <= tracks.len(),
    ensures
        forall|g: (Seq<char>, Seq<char>)|
            #[trigger] kept_after(tracks, n).contains_key(g) ==> exists|i: int|
                0 <= i < n && group_of(tracks[i]) == g,
    decreases n,
{
    if n > 0 {
        lemma_kept_groups_are_seen(tracks, (n - 1) as nat);
        assert forall|g: (Seq<char>, Seq<char>)|
            #[trigger] kept_after(tracks, n).contains_key(g) implies exists|i: int|
                0 <= i < n && group_of(tracks[i]) == g by {
            if g != group_of(tracks[n - 1]) {
                assert(kept_after(tracks, (n - 1) as nat).contains_key(g));
            }
        }
    }
}

/// A track list in which no two tracks share both artist key and title has
/// no duplicates.
pub proof fn lemma_distinct_groups_have_no_duplicates(tracks: Seq<Track>)
    requires
        forall|i: int, j: int|
            0 <= i < j < tracks.len() ==> group_of(tracks[i]) != group_of(tracks[j]),
    ensures
        duplicates_after(tracks, tracks.len()) == Seq::<int>::empty(),
{
    lemma_distinct_prefix_has_no_duplicates(tracks, tracks.len());
}

proof fn lemma_distinct_prefix_has_no_duplicates(tracks: Seq<Track>, n: nat)
    requires
        n <= tracks.len(),
        forall|i: int, j: int|
            0 <= i < j < tracks.len() ==> group_of(tracks[i]) != group_of(tracks[j]),
    ensures
        duplicates_after(tracks, n) == Seq::<int>::empty(),
    decreases n,
{
    if n > 0 {
        lemma_distinct_prefix_has_no_duplicates(tracks, (n - 1) as nat);
        lemma_kept_groups_are_seen(tracks, (n - 1) as nat);
        assert(!kept_after(tracks, (n - 1) as nat).contains_key(group_of(tracks[n - 1])));
    }
}

/// A single followed by a full-album track of the same artists and title:
/// the single is the one duplicate, at position 0, and the album track is kept.
pub proof fn lemma_album_replaces_single(single: Track, album: Track)
    requires
        group_of(single) == group_of(album),
        single.album.album_type@ == "single"@,
        album.album_type_is_album(),
    ensures
        duplicates_after(seq![single, album], 2) == seq![0int],
        kept_after(seq![single, album], 2)[group_of(album)] == 1,
{
    let tracks = seq![single, album];
    assert(kept_after(tracks, 0) == Map::<(Seq<char>, Seq<char>), int>::empty());
    assert(duplicates_after(tracks, 0) == Seq::<int>::empty());
    assert(tracks[0] == single);
    assert(kept_after(tracks, 1) =~= Map::<(Seq<char>, Seq<char>), int>::empty().insert(
        group_of(single),
        0,
    ));
    assert(duplicates_after(tracks, 1) == Seq::<int>::empty());
    assert(incoming_preferred(single, album));
    assert(duplicates_after(tracks, 2) =~= seq![0int]);
}

/// Two full-album tracks of the same artists and title with different album
/// ids: in either order, the one with the higher id is the duplicate.
pub proof fn lemma_lower_album_id_is_kept(lower: Track, higher: Track)
    requires
        group_of(lower) == group_of(higher),
        lower.album_type_is_album(),
        higher.album_type_is_album(),
        seq_less(lower.album.id@, higher.album.id@),
    ensures
        duplicates_after(seq![higher, lower], 2) == seq![0int],
        duplicates_after(seq![lower, higher], 2) == seq![1int],
{
    assert("album"@ != "single"@) by {
        reveal_strlit("single");
        reveal_strlit("album");
        assert("album"@.len() != "single"@.len());
    }
    lemma_seq_less_asymmetric(lower.album.id@, higher.album.id@);
    let down = seq![higher, lower];
    let up = seq![lower, higher];
    assert(kept_after(down, 0) == Map::<(Seq<char>, Seq<char>), int>::empty());
    assert(duplicates_after(down, 0) == Seq::<int>::empty());
    assert(down[0] == higher);
    assert(kept_after(down, 1) =~= Map::<(Seq<char>, Seq<char>), int>::empty().insert(
        group_of(higher),
        0,
    ));
    assert(duplicates_after(down, 1) == Seq::<int>::empty());
    assert(kept_after(up, 0) == Map::<(Seq<char>, Seq<char>), int>::empty());
    assert(duplicates_after(up, 0) == Seq::<int>::empty());
    assert(up[0] == lower);
    assert(kept_after(up, 1) =~= Map::<(Seq<char>, Seq<char>), int>::empty().insert(
        group_of(lower),
        0,
    ));
    assert(duplicates_after(up, 1) == Seq::<int>::empty());
    assert(incoming_preferred(higher, lower));
    assert(!incoming_preferred(lower, higher));
    assert(duplicates_after(down, 2) =~= seq![0int]);
    assert(duplicates_after(up, 2) =~= seq![1int]);
}

/// Most saved tracks that one removal request may name.
pub const SAVED_TRACKS_CHUNK: usize = 50;

/// Most playlist entries that one removal request may name.
pub const PLAYLIST_CHUNK: usize = 100;

/// Where duplicates are removed from: the saved tracks or a playlist.
pub enum Target {
    SavedTracks,
    Playlist(SimplifiedPlaylist),
}

impl Target {
    /// The label under which the choice is offered.
    pub open spec fn label(&self) -> Seq<char> {
        match self {
            Target::SavedTracks => "Liked songs from your library"@,
            Target::Playlist(p) => p.name@ + " - "@ + decimal(p.tracks.total as nat) + " tracks"@,
        }
    }

    /// The label under which the choice is offered.
    pub fn to_string(&self) -> (r: String)
        ensures
            r@ == self.label(),
    {
        match self {
            Target::SavedTracks => String::from_str("Liked songs from your library"),
            Target::Playlist(p) => {
                let mut label = p.name.clone();
                label.append(" - ");
                label.append(decimal_string(p.tracks.total).as_str());
                label.append(" tracks");
                label
            },
        }
    }
}

/// Holds of the playlists that `user` owns.
pub open spec fn owned_by(user: Seq<char>) -> spec_fn(SimplifiedPlaylist) -> bool {
    |p: SimplifiedPlaylist| p.owner.id@ == user
}

/// The choices offered: the saved tracks first, then each playlist that
/// `user` owns, in the order listed.
pub open spec fn targets_for(playlists: Seq<SimplifiedPlaylist>, user: Seq<char>) -> Seq<Target> {
    seq![Target::SavedTracks] + playlists.filter(owned_by(user)).map_values(
        |p: SimplifiedPlaylist| Target::Playlist(p),
    )
}

/// The places duplicates can be removed from: the saved tracks, then the
/// playlists that `user_id` owns.
pub fn removal_targets(playlists: Vec<SimplifiedPlaylist>, user_id: &str) -> (r: Vec<Target>)
    ensures
        r@ == targets_for(playlists@, user_id@),
{
    let ghost all = playlists@;
    let ghost f = |p: SimplifiedPlaylist| Target::Playlist(p);
    let mut rest = playlists;
    let mut out: Vec<Target> = vec![Target::SavedTracks];
    let ghost mut taken: int = 0;
    assert(all.subrange(0, 0).filter(owned_by(user_id@)) =~= Seq::<SimplifiedPlaylist>::empty())
        by {
        reveal(Seq::filter);
    }
    while rest.len() > 0
        invariant
            0 <= taken <= all.len(),
            f == |p: SimplifiedPlaylist| Target::Playlist(p),
            rest@ == all.subrange(taken, all.len() as int),
            out@ == seq![Target::SavedTracks] + all.subrange(0, taken).filter(
                owned_by(user_id@),
            ).map_values(f),
        decreases rest.len(),
    {
        let ghost before = all.subrange(0, taken);
        let p = rest.remove(0);
        proof {
            assert(all.subrange(0, taken + 1) =~= before.push(p));
            before.lemma_filter_push(p, owned_by(user_id@));
        }
        let owned = str_eq(p.owner.id.as_str(), user_id);
        assert(owned == owned_by(user_id@)(p));
        if owned {
            let ghost gp = p;
            out.push(Target::Playlist(p));
            assert(before.push(gp).filter(owned_by(user_id@)) == before.filter(
                owned_by(user_id@),
            ).push(gp));
            assert(f(gp) == Target::Playlist(gp));
            assert(before.push(p).filter(owned_by(user_id@)).map_values(f) =~= before.filter(
                owned_by(user_id@),
            ).map_values(f).push(Target::Playlist(p)));
        } else {
            assert(before.push(p).filter(owned_by(user_id@)) == before.filter(owned_by(user_id@)));
        }
        proof {
            taken = taken + 1;
        }
        assert(rest@ =~= all.subrange(taken, all.len() as int));
    }
    assert(all.subrange(0, taken) =~= all);
    assert(out@ =~= targets_for(all, user_id@));
    out
}

/// The ids of the duplicates, in order.
pub open spec fn duplicate_ids(dups: Seq<Duplicate>) -> Seq<Seq<char>> {
    dups.map_values(|d: Duplicate| d.id@)
}

/// The URI and position of each duplicate, in order.
pub open spec fn duplicate_entries(dups: Seq<Duplicate>) -> Seq<(Seq<char>, usize)> {
    dups.map_values(|d: Duplicate| (d.uri@, d.index))
}

/// The ids of the duplicates in the removal requests for the saved tracks,
/// at most `SAVED_TRACKS_CHUNK` to a request.
pub fn saved_track_removals(dups: &Vec<Duplicate>) -> (r: Vec<Vec<String>>)
    ensures
        is_chunking(
            mapped_chunks(r@, |s: String| s@),
            duplicate_ids(dups@),
            SAVED_TRACKS_CHUNK as nat,
        ),
{
    let mut ids: Vec<String> = Vec::new();
    let mut i: usize = 0;
    while i < dups.len()
        invariant
            i <= dups@.len(),
            ids@.map_values(|s: String| s@) == duplicate_ids(dups@.subrange(0, i as int)),
        decreases dups.len() - i,
    {
        let ghost before = ids@;
        ids.push(dups[i].id.clone());
        assert(dups@.subrange(0, i + 1) =~= dups@.subrange(0, i as int).push(dups@[i as int]));
        assert(ids@.map_values(|s: String| s@) =~= before.map_values(|s: String| s@).push(
            dups@[i as int].id@,
        ));
        assert(duplicate_ids(dups@.subrange(0, i + 1)) =~= duplicate_ids(
            dups@.subrange(0, i as int),
        ).push(dups@[i as int].id@));
        i = i + 1;
    }
    assert(dups@.subrange(0, i as int) =~= dups@);
    let ghost flat = ids@;
    let r = chunks(ids, SAVED_TRACKS_CHUNK);
    proof {
        lemma_chunking_map(r@, flat, SAVED_TRACKS_CHUNK as nat, |s: String| s@);
    }
    r
}

/// The URI and position of each duplicate in the removal requests for a
/// playlist, at most `PLAYLIST_CHUNK` to a request.
pub fn playlist_removals(dups: &Vec<Duplicate>) -> (r: Vec<Vec<(String, usize)>>)
    ensures
        is_chunking(
            mapped_chunks(r@, |e: (String, usize)| (e.0@, e.1)),
            duplicate_entries(dups@),
            PLAYLIST_CHUNK as nat,
        ),
{
    let mut entries: Vec<(String, usize)> = Vec::new();
    let mut i: usize = 0;
    while i < dups.len()
        invariant
            i <= dups@.len(),
            entries@.map_values(|e: (String, usize)| (e.0@, e.1)) == duplicate_entries(
                dups@.subrange(0, i as int),
            ),
        decreases dups.len() - i,
    {
        let ghost before = entries@;
        entries.push((dups[i].uri.clone(), dups[i].index));
        assert(dups@.subrange(0, i + 1) =~= dups@.subrange(0, i as int).push(dups@[i as int]));
        assert(entries@.map_values(|e: (String, usize)| (e.0@, e.1)) =~= before.map_values(
            |e: (String, usize)| (e.0@, e.1),
        ).push((dups@[i as int].uri@, dups@[i as int].index)));
        assert(duplicate_entries(dups@.subrange(0, i + 1)) =~= duplicate_entries(
            dups@.subrange(0, i as int),
        ).push((dups@[i as int].uri@, dups@[i as int].index)));
        i = i + 1;
    }
    assert(dups@.subrange(0, i as int) =~= dups@);
    let ghost flat = entries@;
    let r = chunks(entries, PLAYLIST_CHUNK);
    proof {
        lemma_chunking_map(r@, flat, PLAYLIST_CHUNK as nat, |e: (String, usize)| (e.0@, e.1));
    }
    r
}

} // verus!
