use vela_core::source::local::{
    base_item, children_show_title, episode_entry, search_hit, season_entry, sort_and_page,
    sort_items, ItemOrder,
};
use vela_core::source::ItemDto;

fn titled(title: &str, year: Option<u32>) -> ItemDto {
    base_item("local", &format!("/m/{title}"), title.to_string(), year, "movie")
}

fn titles(v: &[ItemDto]) -> Vec<&str> {
    v.iter().map(|i| i.title.as_str()).collect()
}

#[test]
fn listing_sorts_by_title_case_insensitively_and_pages() {
    let items = vec![
        titled("banana", None),
        titled("Apple", None),
        titled("cherry", None),
        titled("Éclair", None),
    ];
    let page = sort_and_page(items.clone(), None, 0, 10);
    assert_eq!(titles(&page), vec!["Apple", "banana", "cherry", "Éclair"]);
    let page = sort_and_page(items.clone(), Some("titleSort:DESC"), 1, 2);
    assert_eq!(titles(&page), vec!["cherry", "banana"]);
    assert!(sort_and_page(items.clone(), None, 4, 3).is_empty());
    assert!(sort_and_page(items, Some("titleSort:asc"), 0, 0).is_empty());
}

#[test]
fn listing_sorts_by_year_stably_with_unknown_years_first() {
    let items = vec![
        titled("b", Some(2001)),
        titled("a", None),
        titled("c", Some(1999)),
        titled("d", Some(2001)),
    ];
    let page = sort_and_page(items.clone(), Some("year:asc"), 0, 10);
    assert_eq!(titles(&page), vec!["a", "c", "b", "d"]);
    let page = sort_and_page(items.clone(), Some("year:desc"), 0, 10);
    assert_eq!(titles(&page), vec!["d", "b", "c", "a"]);
    // A sort without a direction is the default title order.
    let page = sort_and_page(items, Some("year"), 0, 10);
    assert_eq!(titles(&page), vec!["a", "b", "c", "d"]);
}

#[test]
fn show_children_order_by_season_episode_then_title() {
    let mut items = Vec::new();
    for (title, season, episode) in [
        ("Finale", Some(2), Some(1)),
        ("extras", None, None),
        ("Pilot", Some(1), Some(1)),
        ("Second", Some(1), Some(2)),
        ("Bonus", None, None),
    ] {
        let mut it = titled(title, None);
        it.parent_index = season;
        it.index = episode;
        items.push(it);
    }
    sort_items(&mut items, ItemOrder::Episodes);
    assert_eq!(titles(&items), vec!["Bonus", "extras", "Pilot", "Second", "Finale"]);
}

#[test]
fn season_and_episode_entries_read_their_names() {
    let season = season_entry("local", "/tv/The Wire (2002)/Season 02");
    assert_eq!(season.title, "Season 02");
    assert_eq!(season.index, Some(2));
    assert_eq!(season.media_type.as_deref(), Some("season"));
    assert_eq!(season.rating_key, "local:/tv/The Wire (2002)/Season 02");

    let show = children_show_title("/tv/The Wire (2002)/Season 02");
    assert_eq!(show, "The Wire");
    assert_eq!(children_show_title("/tv/The Wire (2002)"), "The Wire");

    let (ep, s, e) = episode_entry(
        "local",
        "/tv/The Wire (2002)/Season 02/The.Wire.S02E03.Hot.Shots.mkv",
        "/tv/The Wire (2002)/Season 02",
        &show,
    );
    assert_eq!(ep.parent_index, Some(2));
    assert_eq!(ep.index, Some(3));
    assert_eq!(ep.grandparent_title.as_deref(), Some("The Wire"));
    assert_eq!(ep.media_type.as_deref(), Some("episode"));
    assert_eq!((s, e), (Some(2), Some(3)));

    let (ep, s, e) = episode_entry("local", "/tv/Show/Season 4/bonus.mkv", "/tv/Show/Season 4", "Show");
    assert_eq!((ep.parent_index, ep.index), (None, None));
    assert_eq!((s, e), (Some(4), None), "the folder names the season");
}

#[test]
fn filename_search_matches_the_lowercased_stem() {
    let hit = search_hit("local", "/tv/The Wire (2002)/Season 02/The.Wire.S02E03.Hot.Shots.mkv", "wire")
        .expect("stem contains the needle");
    assert_eq!(hit.media_type.as_deref(), Some("episode"));
    assert_eq!((hit.parent_index, hit.index), (Some(2), Some(3)));
    assert_eq!(hit.grandparent_title.as_deref(), Some("The Wire"));
    assert_eq!(hit.rating_key, "local:/tv/The Wire (2002)/Season 02/The.Wire.S02E03.Hot.Shots.mkv");

    let movie = search_hit("local", "/m/Heat (1995)/Heat.1995.1080p.mkv", "heat").expect("movie hit");
    assert_eq!(movie.media_type.as_deref(), Some("movie"));
    assert_eq!(movie.title, "Heat");
    assert_eq!(movie.year, Some(1995));

    assert!(search_hit("local", "/m/Heat (1995)/Heat.1995.1080p.mkv", "Heat").is_none(), "the needle arrives lowercased");
    assert!(search_hit("local", "/m/Heat (1995)/Heat.1995.1080p.mkv", "ronin").is_none());
    // The folder name is not searched, only the file's stem.
    assert!(search_hit("local", "/m/Ronin/Heat.1995.mkv", "ronin").is_none());
}
