use spotify_tools::cmds::decades::{
    decade_label, decade_of, decades_playlist_name, selected_uris, tracks_by_decade,
};
use spotify_tools::cmds::genres::{
    artist_lookups, build_genre_index, genre_label, genres_playlist_name, genres_selected_uris,
    rank_genres,
};
use spotify_tools::cmds::spotify_api::{FullArtist, SimplifiedAlbum, SimplifiedArtist, Track};
use spotify_tools::cmds::tracks_info::library_summary;

fn track(uri: &str, artists: &[(&str, &str)], album_id: &str, date: &str) -> Track {
    Track {
        name: format!("name {}", uri),
        artists: artists
            .iter()
            .map(|(id, name)| SimplifiedArtist { name: String::from(*name), id: String::from(*id) })
            .collect(),
        album: SimplifiedAlbum {
            album_type: String::from("album"),
            name: format!("album {}", album_id),
            release_date: String::from(date),
            id: String::from(album_id),
        },
        id: format!("id-{}", uri),
        uri: String::from(uri),
    }
}

fn full_artist(id: &str, name: &str, genres: &[&str]) -> FullArtist {
    FullArtist {
        id: String::from(id),
        name: String::from(name),
        genres: genres.iter().map(|g| String::from(*g)).collect(),
    }
}

#[test]
fn decade_of_a_date() {
    assert_eq!(decade_of("1994-05-01"), "1990s");
    assert_eq!(decade_of("2001"), "2000s");
    assert_eq!(decade_of("198"), "1980s");
}

#[test]
fn tracks_grouped_by_decade_in_order() {
    let tracks = vec![
        track("u0", &[("a", "A")], "x", "2004-01-01"),
        track("u1", &[("a", "A")], "x", "1991"),
        track("u2", &[("a", "A")], "x", "2009-12-31"),
        track("u3", &[("a", "A")], "x", "1985-07"),
    ];
    let groups = tracks_by_decade(&tracks);
    let keys: Vec<&str> = groups.iter().map(|g| g.0.as_str()).collect();
    assert_eq!(keys, vec!["1980s", "1990s", "2000s"]);
    assert_eq!(groups[2].1, vec![0, 2]);
    assert_eq!(groups[0].1, vec![3]);
    assert_eq!(decade_label(&groups[2].0, groups[2].1.len()), "00s - 2 songs");
    assert_eq!(decades_playlist_name(&groups, &vec![1, 2]), "90s/00s");
    assert_eq!(decades_playlist_name(&groups, &vec![]), "");
    assert_eq!(selected_uris(&tracks, &groups, &vec![2, 0]), vec!["u0", "u2", "u3"]);
    assert!(tracks_by_decade(&vec![]).is_empty());
}

#[test]
fn library_overview_counts_and_ranks() {
    let tracks = vec![
        track("u0", &[("b", "Bee")], "al1", "2000"),
        track("u1", &[("a", "Ay"), ("b", "Bee")], "al2", "2000"),
        track("u2", &[("c", "Cee")], "al1", "2000"),
        track("u3", &[("a", "Ay (renamed)")], "al3", "2000"),
    ];
    let summary = library_summary(&tracks);
    assert_eq!(summary.songs, 4);
    assert_eq!(summary.albums, 3);
    let ranked: Vec<(String, usize)> =
        summary.artists.iter().map(|c| (c.name.clone(), c.counter)).collect();
    assert_eq!(
        ranked,
        vec![(String::from("Bee"), 2), (String::from("Ay"), 2), (String::from("Cee"), 1)]
    );
    assert_eq!(
        summary.headline(),
        "Your library contains 4 songs from 3 albums by 3 artists."
    );
    assert_eq!(summary.top_lines(), vec!["Bee - 2 songs", "Ay - 2 songs", "Cee - 1 songs"]);
}

#[test]
fn overview_puts_most_songs_first() {
    let tracks = vec![
        track("u0", &[("c", "Cee")], "al", "2000"),
        track("u1", &[("a", "Ay")], "al", "2000"),
        track("u2", &[("b", "Bee")], "al", "2000"),
        track("u3", &[("b", "Bee")], "al", "2000"),
        track("u4", &[("a", "Ay"), ("b", "Bee")], "al", "2000"),
    ];
    let summary = library_summary(&tracks);
    assert_eq!(summary.top_lines(), vec!["Bee - 3 songs", "Ay - 2 songs", "Cee - 1 songs"]);
}

#[test]
fn overview_lists_at_most_fifty_artists() {
    let tracks: Vec<Track> = (0..60)
        .map(|i| {
            let id = format!("artist{}", i);
            track(&format!("u{}", i), &[(id.as_str(), id.as_str())], "al", "2000")
        })
        .collect();
    let summary = library_summary(&tracks);
    assert_eq!(summary.artists.len(), 60);
    assert_eq!(summary.top_lines().len(), 50);
    assert_eq!(summary.top_lines()[0], "artist0 - 1 songs");
}

#[test]
fn artist_lookups_batch_distinct_first_artists() {
    let tracks: Vec<Track> = (0..120)
        .map(|i| {
            let id = format!("a{}", i % 60);
            track(&format!("u{}", i), &[(id.as_str(), "N"), ("zz", "Z")], "al", "2000")
        })
        .collect();
    let urls = artist_lookups(&tracks);
    assert_eq!(urls.len(), 2);
    let first: Vec<String> = (0..50).map(|i| format!("a{}", i)).collect();
    assert_eq!(urls[0], format!("https://api.spotify.com/v1/artists?ids={}", first.join(",")));
    let second: Vec<String> = (50..60).map(|i| format!("a{}", i)).collect();
    assert_eq!(urls[1], format!("https://api.spotify.com/v1/artists?ids={}", second.join(",")));
}

#[test]
fn genres_are_indexed_ranked_and_selected() {
    let tracks = vec![
        track("u0", &[("a", "Ay")], "x", "2000"),
        track("u1", &[("b", "Bee")], "x", "2000"),
        track("u2", &[("a", "Ay")], "x", "2000"),
        track("u3", &[("c", "Cee")], "x", "2000"),
    ];
    let looked_up = vec![
        full_artist("a", "Ay", &["rock", "pop"]),
        full_artist("b", "Bee", &["pop"]),
        full_artist("c", "Cee", &[]),
    ];
    let index = build_genre_index(&looked_up);
    let keys: Vec<&str> = index.iter().map(|e| e.0.as_str()).collect();
    assert_eq!(keys, vec!["rock", "pop", "Ay", "Bee", "Cee"]);
    assert_eq!(index[1].1, vec![
        (String::from("a"), String::from("Ay")),
        (String::from("b"), String::from("Bee")),
    ]);
    let choices = rank_genres(&tracks, &index);
    let ranked: Vec<(&str, Vec<usize>)> =
        choices.groups.iter().map(|g| (g.0.as_str(), g.1.clone())).collect();
    assert_eq!(
        ranked,
        vec![
            ("pop", vec![0, 2, 1]),
            ("rock", vec![0, 2]),
            ("Ay", vec![0, 2]),
            ("Bee", vec![1]),
            ("Cee", vec![3]),
        ]
    );
    assert_eq!(choices.artists[0], vec![String::from("Ay"), String::from("Bee")]);
    assert_eq!(genre_label("pop", 3, &choices.artists[0]), "pop - 3 songs (Ay, Bee)");
    assert_eq!(genres_playlist_name(&choices, &vec![0, 3]), "pop/Bee");
    assert_eq!(genres_selected_uris(&tracks, &choices, &vec![0, 1, 4]), vec!["u0", "u2", "u1", "u3"]);
}

#[test]
fn artist_name_entry_replaces_earlier_filing() {
    let looked_up = vec![full_artist("a", "A", &["x"]), full_artist("b", "x", &[])];
    let index = build_genre_index(&looked_up);
    let keys: Vec<&str> = index.iter().map(|e| e.0.as_str()).collect();
    assert_eq!(keys, vec!["x", "A"]);
    assert_eq!(index[0].1, vec![(String::from("b"), String::from("x"))]);
    assert_eq!(index[1].1, vec![(String::from("a"), String::from("A"))]);
}

#[test]
fn genre_label_shows_five_artists_at_most() {
    let names: Vec<String> = (1..=7).map(|i| format!("N{}", i)).collect();
    assert_eq!(genre_label("metal", 12, &names), "metal - 12 songs (N1, N2, N3, N4, N5)");
    assert_eq!(genre_label("none", 0, &vec![]), "none - 0 songs ()");
}
