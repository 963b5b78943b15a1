use spotify_tools::cmds::duplicates::{
    find_duplicates, partition_duplicates, playlist_removals, removal_targets,
    saved_track_removals, Duplicate, Target,
};
use spotify_tools::cmds::spotify_api::{
    SimplifiedAlbum, SimplifiedArtist, SimplifiedPlaylist, Track, Tracks, User,
};

fn artist(name: &str) -> SimplifiedArtist {
    SimplifiedArtist { name: String::from(name), id: format!("id-{}", name) }
}

fn track(title: &str, artists: &[&str], album_type: &str, album_id: &str) -> Track {
    Track {
        name: String::from(title),
        artists: artists.iter().map(|a| artist(a)).collect(),
        album: SimplifiedAlbum {
            album_type: String::from(album_type),
            name: format!("album {}", album_id),
            release_date: String::from("1999-01-01"),
            id: String::from(album_id),
        },
        id: format!("track-{}-{}", title, album_id),
        uri: format!("spotify:track:{}-{}", title, album_id),
    }
}

fn playlist(name: &str, owner: &str, total: u64) -> SimplifiedPlaylist {
    SimplifiedPlaylist {
        name: String::from(name),
        owner: User { id: String::from(owner) },
        tracks: Tracks { href: format!("https://example.test/{}/tracks", name), total },
        snapshot_id: String::from("snap"),
        id: format!("pl-{}", name),
        uri: format!("spotify:playlist:{}", name),
    }
}

fn indices(d: &[Duplicate]) -> Vec<usize> {
    d.iter().map(|x| x.index).collect()
}

#[test]
fn distinct_pairs_have_no_duplicates() {
    let tracks = vec![
        track("Song", &["A"], "album", "x"),
        track("Song", &["B"], "album", "x"),
        track("Other", &["A"], "album", "x"),
        track("Song", &["A", "B"], "album", "x"),
    ];
    assert!(find_duplicates(&tracks).is_empty());
    assert!(find_duplicates(&[]).is_empty());
}

#[test]
fn album_wins_over_single() {
    let tracks = vec![track("Song", &["A"], "single", "s"), track("Song", &["A"], "album", "a")];
    let (kept, d) = partition_duplicates(&tracks);
    assert_eq!(indices(&d), vec![0]);
    assert_eq!(d[0].name, "Song");
    assert_eq!(d[0].album, "album s");
    assert_eq!(d[0].artist, "A");
    assert_eq!(d[0].id, "track-Song-s");
    assert_eq!(d[0].uri, "spotify:track:Song-s");
    assert_eq!(kept, vec![1]);
}

#[test]
fn single_loses_to_kept_album() {
    let tracks = vec![track("Song", &["A"], "album", "z"), track("Song", &["A"], "single", "a")];
    let (kept, d) = partition_duplicates(&tracks);
    assert_eq!(indices(&d), vec![1]);
    assert_eq!(kept, vec![0]);
}

#[test]
fn lower_album_id_wins_in_either_order() {
    let b_then_a = vec![track("Song", &["A"], "album", "b"), track("Song", &["A"], "album", "a")];
    let d = find_duplicates(&b_then_a);
    assert_eq!(indices(&d), vec![0]);
    assert_eq!(d[0].id, "track-Song-b");
    let a_then_b = vec![track("Song", &["A"], "album", "a"), track("Song", &["A"], "album", "b")];
    let d = find_duplicates(&a_then_b);
    assert_eq!(indices(&d), vec![1]);
    assert_eq!(d[0].id, "track-Song-b");
}

#[test]
fn two_singles_compare_album_ids() {
    let tracks = vec![track("Song", &["A"], "single", "q"), track("Song", &["A"], "single", "p")];
    assert_eq!(indices(&find_duplicates(&tracks)), vec![0]);
    let equal = vec![track("Song", &["A"], "compilation", "p"), track("Song", &["A"], "album", "p")];
    assert_eq!(indices(&find_duplicates(&equal)), vec![1]);
}

#[test]
fn artist_order_matters_for_grouping() {
    let tracks = vec![track("Song", &["A", "B"], "album", "x"), track("Song", &["B", "A"], "album", "x")];
    assert!(find_duplicates(&tracks).is_empty());
    let joined = vec![track("Song", &["AB"], "album", "x"), track("Song", &["A", "B"], "album", "y")];
    assert_eq!(indices(&find_duplicates(&joined)), vec![1]);
}

#[test]
fn duplicates_come_in_processing_order() {
    let tracks = vec![
        track("One", &["A"], "single", "s1"),
        track("Two", &["A"], "album", "c"),
        track("One", &["A"], "album", "a1"),
        track("Two", &["A"], "album", "b"),
        track("One", &["A"], "single", "s2"),
    ];
    assert_eq!(indices(&find_duplicates(&tracks)), vec![0, 1, 4]);
}

#[test]
fn track_without_artists_is_reported_with_empty_artist() {
    let tracks = vec![track("Song", &[], "album", "b"), track("Song", &[], "album", "a")];
    let d = find_duplicates(&tracks);
    assert_eq!(indices(&d), vec![0]);
    assert_eq!(d[0].artist, "");
}

#[test]
fn removal_targets_list_saved_tracks_then_owned_playlists() {
    let lists = vec![playlist("Mine", "me", 3), playlist("Theirs", "you", 5), playlist("Also", "me", 0)];
    let targets = removal_targets(lists, "me");
    let labels: Vec<String> = targets.iter().map(|t| t.to_string()).collect();
    assert_eq!(
        labels,
        vec!["Liked songs from your library", "Mine - 3 tracks", "Also - 0 tracks"]
    );
    assert!(matches!(targets[0], Target::SavedTracks));
}

#[test]
fn removal_requests_are_chunked() {
    let tracks: Vec<Track> = (0..120)
        .map(|i| track("Song", &["A"], "album", &format!("{:03}", 200 - i)))
        .collect();
    let d = find_duplicates(&tracks);
    assert_eq!(d.len(), 119);
    let saved = saved_track_removals(&d);
    assert_eq!(saved.iter().map(|c| c.len()).collect::<Vec<_>>(), vec![50, 50, 19]);
    assert_eq!(saved[0][0], d[0].id);
    let entries = playlist_removals(&d);
    assert_eq!(entries.iter().map(|c| c.len()).collect::<Vec<_>>(), vec![100, 19]);
    assert_eq!(entries[1][18], (d[118].uri.clone(), d[118].index));
}
