use vela_core::playlists::{
    add_items, create, delete, remove_item, rename, reorder, view, Playlist, PlaylistEntry,
    PlaylistFile,
};
use vela_core::source::ItemDto;

fn item(source: &str, key: &str, title: &str) -> ItemDto {
    ItemDto {
        rating_key: format!("{source}:{key}"),
        title: title.to_string(),
        year: None,
        summary: None,
        duration_ms: Some(60_000),
        media_type: Some("movie".to_string()),
        poster: None,
        series_poster: None,
        backdrop: None,
        view_offset_ms: None,
        played: Some(false),
        last_watched_at_ms: None,
        added_at_ms: None,
        index: None,
        parent_index: None,
        grandparent_title: None,
        parent_title: None,
        parent_rating_key: None,
        grandparent_rating_key: None,
        source_id: source.to_string(),
        provider_ids: vec![],
        backing: None,
        canonical_id: None,
        watch_key: None,
        detail_key: None,
    }
}

fn entry(id: &str, source: &str, key: &str, title: &str) -> PlaylistEntry {
    PlaylistEntry {
        id: id.to_string(),
        item: item(source, key, title),
        source_name: Some(source.to_uppercase()),
    }
}

fn snapshot(file: &PlaylistFile) -> String {
    format!("{file:?}")
}

#[test]
fn crud_uses_stable_entries_allows_duplicates_and_checks_bounds() {
    let mut file = PlaylistFile::default();
    let created = create(&mut file, "p1".into(), "  Voyage  ".into(), 1).unwrap();
    assert_eq!(created.name, "Voyage");
    assert_eq!(created.created_ms, 1);

    let renamed = rename(&mut file, "p1", "New name".into(), 2).unwrap();
    assert_eq!(renamed.name, "New name");
    assert_eq!(renamed.updated_ms, 2);

    let added = add_items(
        &mut file,
        "p1",
        vec![
            entry("one", "a", "1", "One"),
            entry("two", "b", "2", "Two"),
            entry("again", "a", "1", "One"),
        ],
        3,
    )
    .unwrap();
    assert_eq!(added.items.len(), 3);
    assert_eq!(
        added.items[0].item.rating_key,
        added.items[2].item.rating_key
    );
    assert_ne!(added.items[0].id, added.items[2].id);

    let moved = reorder(&mut file, "p1", "again", 1, 4).unwrap();
    assert_eq!(
        moved
            .items
            .iter()
            .map(|entry| entry.id.as_str())
            .collect::<Vec<_>>(),
        vec!["one", "again", "two"]
    );
    let moved_back = reorder(&mut file, "p1", "again", 0, 5).unwrap();
    assert_eq!(
        moved_back
            .items
            .iter()
            .map(|entry| entry.id.as_str())
            .collect::<Vec<_>>(),
        vec!["again", "one", "two"]
    );

    let before = snapshot(&file);
    assert!(reorder(&mut file, "p1", "again", 3, 6).is_err());
    assert_eq!(snapshot(&file), before);

    let removed = remove_item(&mut file, "p1", "one", 7).unwrap();
    assert_eq!(
        removed
            .items
            .iter()
            .map(|entry| entry.id.as_str())
            .collect::<Vec<_>>(),
        vec!["again", "two"]
    );
    assert!(remove_item(&mut file, "p1", "missing", 8).is_err());
    delete(&mut file, "p1").unwrap();
    assert!(file.playlists.is_empty());
    assert!(delete(&mut file, "p1").is_err());
}

#[test]
fn invalid_names_and_unplayable_items_do_not_mutate_the_store() {
    let mut file = PlaylistFile::default();
    assert!(create(&mut file, "p".into(), "   ".into(), 1).is_err());
    assert!(file.playlists.is_empty());
    create(&mut file, "p".into(), "Good".into(), 1).unwrap();

    let before = snapshot(&file);
    let mut show = entry("show", "a", "show", "Show");
    show.item.media_type = Some("show".to_string());
    assert!(add_items(&mut file, "p", vec![show], 2).is_err());
    assert_eq!(snapshot(&file), before);
    assert!(add_items(&mut file, "p", vec![], 2).is_err());
    assert_eq!(snapshot(&file), before);
}

#[test]
fn unavailable_entries_are_retained_and_marked_in_place() {
    let playlist = Playlist {
        id: "p".to_string(),
        name: "Mixed".to_string(),
        items: vec![
            PlaylistEntry {
                id: "live".to_string(),
                item: item("live", "1", "Live"),
                source_name: None,
            },
            PlaylistEntry {
                id: "gone".to_string(),
                item: item("gone", "2", "Gone"),
                source_name: Some("Removed server".to_string()),
            },
        ],
        created_ms: 1,
        updated_ms: 1,
    };
    let view = view(playlist, &vec!["live".to_string()]);
    assert_eq!(view.items.len(), 2, "curated entries are never filtered");
    assert!(view.items[0].available);
    assert!(!view.items[1].available);
    assert_eq!(view.items[1].item.title, "Gone");
}
