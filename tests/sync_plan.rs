use spotify_tools::cmds::spotify_api::{SimplifiedPlaylist, Tracks, User};
use spotify_tools::cmds::sync::{
    chunks, matching_playlist, plan_creation, plan_update, playlist_creation_url,
    truncate_name, uris_to_add, uris_to_remove,
};

fn uris(items: &[&str]) -> Vec<String> {
    items.iter().map(|s| String::from(*s)).collect()
}

fn playlist(name: &str, owner: &str) -> SimplifiedPlaylist {
    SimplifiedPlaylist {
        name: String::from(name),
        owner: User { id: String::from(owner) },
        tracks: Tracks { href: String::from("https://example.test/tracks"), total: 0 },
        snapshot_id: String::from("snap"),
        id: String::from("id"),
        uri: String::from("uri"),
    }
}

#[test]
fn diff_is_set_difference_both_ways() {
    let current = uris(&["a", "b", "c", "b"]);
    let target = uris(&["c", "d", "a", "e"]);
    assert_eq!(uris_to_remove(&current, &target), uris(&["b", "b"]));
    assert_eq!(uris_to_add(&current, &target), uris(&["d", "e"]));
}

#[test]
fn second_sync_changes_nothing() {
    let current = uris(&["a", "b", "c"]);
    let target = uris(&["c", "d", "e"]);
    let removed = uris_to_remove(&current, &target);
    let added = uris_to_add(&current, &target);
    let mut after: Vec<String> = current.into_iter().filter(|u| !removed.contains(u)).collect();
    after.extend(added);
    assert!(uris_to_remove(&after, &target).is_empty());
    assert!(uris_to_add(&after, &target).is_empty());
}

#[test]
fn diff_ignores_positions() {
    let c1 = uris(&["a", "b", "c"]);
    let c2 = uris(&["c", "a", "b", "a"]);
    let t1 = uris(&["b", "d", "e"]);
    let t2 = uris(&["e", "d", "b"]);
    assert_eq!(uris_to_add(&c1, &t1), uris_to_add(&c2, &t1));
    assert_eq!(uris_to_remove(&c1, &t1), uris_to_remove(&c1, &t2));
    let mut r1 = uris_to_remove(&c1, &t1);
    let mut r2 = uris_to_remove(&c2, &t2);
    r1.sort();
    r1.dedup();
    r2.sort();
    r2.dedup();
    assert_eq!(r1, r2);
}

#[test]
fn two_hundred_fifty_additions_make_three_requests() {
    let target: Vec<String> = (0..250).map(|i| format!("spotify:track:{}", i)).collect();
    let requests = plan_creation(target.clone());
    assert_eq!(requests.iter().map(|c| c.len()).collect::<Vec<_>>(), vec![100, 100, 50]);
    assert_eq!(requests.concat(), target);
    let plan = plan_update(&vec![], &target, &String::from("snap-1"));
    assert_eq!(plan.additions.iter().map(|c| c.len()).collect::<Vec<_>>(), vec![100, 100, 50]);
    assert!(plan.removals.is_empty());
    assert_eq!(plan.snapshot_id, "snap-1");
}

#[test]
fn update_plan_removes_then_adds_under_one_snapshot() {
    let current: Vec<String> = (0..150).map(|i| format!("u{}", i)).collect();
    let target: Vec<String> = (100..210).map(|i| format!("u{}", i)).collect();
    let plan = plan_update(&current, &target, &String::from("s"));
    assert_eq!(plan.removals.iter().map(|c| c.len()).collect::<Vec<_>>(), vec![100]);
    assert_eq!(plan.removals[0][0], "u0");
    assert_eq!(plan.additions.iter().map(|c| c.len()).collect::<Vec<_>>(), vec![60]);
    assert_eq!(plan.additions[0][0], "u150");
    assert_eq!(plan.snapshot_id, "s");
}

#[test]
fn chunking_edges() {
    assert!(chunks(Vec::<u8>::new(), 100).is_empty());
    assert_eq!(chunks(vec![1, 2, 3], 3), vec![vec![1, 2, 3]]);
    assert_eq!(chunks(vec![1, 2, 3, 4], 3), vec![vec![1, 2, 3], vec![4]]);
    assert_eq!(chunks(vec![1, 2], 1), vec![vec![1], vec![2]]);
}

#[test]
fn names_are_capped_at_a_char_boundary() {
    let long = "x".repeat(150);
    assert_eq!(truncate_name(&long), "x".repeat(100));
    assert_eq!(truncate_name("90s/00s"), "90s/00s");
    assert_eq!(truncate_name(""), "");
    let accented = format!("{}é", "a".repeat(99));
    assert_eq!(truncate_name(&accented), "a".repeat(99));
    let exact = format!("{}é", "a".repeat(98));
    assert_eq!(truncate_name(&exact), exact);
}

#[test]
fn exactly_one_match_is_updated() {
    let lists = vec![playlist("Rock", "me"), playlist("Pop", "me"), playlist("Rock", "you")];
    assert_eq!(matching_playlist(&lists, "me", "Rock"), Some(0));
    assert_eq!(matching_playlist(&lists, "you", "Rock"), Some(2));
    assert_eq!(matching_playlist(&lists, "me", "Jazz"), None);
    let twice = vec![playlist("Rock", "me"), playlist("Rock", "me")];
    assert_eq!(matching_playlist(&twice, "me", "Rock"), None);
}

#[test]
fn creation_url_names_the_user() {
    assert_eq!(
        playlist_creation_url("alice"),
        "https://api.spotify.com/v1/users/alice/playlists"
    );
}
