use spotify_tools::cmds::command;
use spotify_tools::cmds::paging::PagedFetch;
use spotify_tools::cmds::spotify_api::Paging;
use spotify_tools::cmds::util::Command;
use spotify_tools::text::{decimal_string, str_eq, str_less};

fn page(items: Vec<u32>, next: Option<&str>, total: u64) -> Paging<u32> {
    Paging { items, limit: 50, next: next.map(String::from), total }
}

#[test]
fn fetch_follows_cursor_and_keeps_order() {
    let mut fetch: PagedFetch<u32> = PagedFetch::new("https://example.test/p1");
    assert_eq!(fetch.next_url(), Some(String::from("https://example.test/p1")));
    assert!(!fetch.is_done());
    assert_eq!(fetch.total(), None);
    fetch.receive(page(vec![1, 2], Some("https://example.test/p2"), 5));
    assert_eq!(fetch.total(), Some(5));
    assert_eq!(fetch.progress(), 2);
    assert_eq!(fetch.next_url(), Some(String::from("https://example.test/p2")));
    fetch.receive(page(vec![], Some("https://example.test/p3"), 99));
    assert_eq!(fetch.total(), Some(5));
    assert_eq!(fetch.progress(), 2);
    assert!(!fetch.is_done());
    fetch.receive(page(vec![3, 4, 5], None, 5));
    assert!(fetch.is_done());
    assert_eq!(fetch.next_url(), None);
    assert_eq!(fetch.progress(), 5);
    assert_eq!(fetch.into_items(), vec![1, 2, 3, 4, 5]);
}

#[test]
fn single_page_fetch() {
    let mut fetch: PagedFetch<u32> = PagedFetch::new("u");
    fetch.receive(page(vec![7], None, 1));
    assert!(fetch.is_done());
    assert_eq!(fetch.progress(), 1);
    assert_eq!(fetch.into_items(), vec![7]);
}

#[test]
fn menu_lists_actions_in_order() {
    assert_eq!(
        Command::commands(),
        vec![Command::TracksInfo, Command::Duplicates, Command::Decades, Command::Genres, Command::Exit]
    );
    assert_eq!(Command::Exit.to_string(), "Exit");
    assert_eq!(
        Command::Duplicates.to_string(),
        "Remove duplicates from liked songs or from a playlist"
    );
    assert!(Command::Exit.is_exit());
    assert!(!Command::Genres.is_exit());
}

#[test]
fn reduced_menu_lists_two_actions() {
    assert_eq!(command::Command::commands(), vec![command::Command::TracksInfo, command::Command::Exit]);
    assert_eq!(command::Command::TracksInfo.to_string(), "Show information about saved tracks");
}

#[test]
fn decimal_writing() {
    assert_eq!(decimal_string(0), "0");
    assert_eq!(decimal_string(8000), "8000");
    assert_eq!(decimal_string(u64::MAX), "18446744073709551615");
}

#[test]
fn string_comparisons() {
    assert!(str_less("a", "b"));
    assert!(!str_less("b", "a"));
    assert!(str_less("ab", "abc"));
    assert!(!str_less("abc", "abc"));
    assert!(str_less("", "a"));
    assert!(str_less("Z", "a"));
    assert!(str_less("z", "é"));
    assert!(str_eq("single", "single"));
    assert!(!str_eq("single", "singles"));
}
