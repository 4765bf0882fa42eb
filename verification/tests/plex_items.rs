use vela_core::plex_library::{
    merge_in_document_order, row_order, video_from_dir, PlexDetail, PlexDetailMedia,
    PlexDetailPart, PlexDir, PlexGuid, PlexRole, PlexStream, PlexTag, PlexVideo,
};
use vela_core::source::plex::{
    detail_image_paths, item_image_paths, to_detail, to_item, DetailImages, ItemImages,
};
use vela_core::xml::read_events;

fn no_images() -> DetailImages {
    DetailImages { poster: None, backdrop: None, role_thumbs: vec![] }
}

#[test]
fn to_detail_maps_and_namespaces() {
    let detail = PlexDetail {
        rating_key: "42".into(),
        title: "A Movie".into(),
        media_type: Some("movie".into()),
        view_count: Some(0),
        genres: vec![
            PlexTag { tag: "Action".into(), id: None },
            PlexTag { tag: String::new(), id: None }, // blank tag is dropped
        ],
        directors: vec![
            PlexTag { tag: "Dir One".into(), id: Some("456".into()) },
            PlexTag { tag: "Dir NoId".into(), id: None },
            PlexTag { tag: "Dir BadId".into(), id: Some("abc".into()) },
        ],
        writers: vec![PlexTag { tag: "Writer One".into(), id: Some("789".into()) }],
        roles: vec![
            PlexRole {
                tag: "Actor One".into(),
                id: Some("123".into()),
                role: Some("Hero".into()),
                thumb: Some("/library/metadata/42/role/1".into()),
            },
            PlexRole { tag: String::new(), id: None, role: None, thumb: None },
        ],
        media: vec![PlexDetailMedia {
            video_resolution: Some("1080".into()),
            video_dynamic_range: Some("Dolby Vision".into()),
            parts: vec![PlexDetailPart {
                streams: vec![PlexStream {
                    stream_type: Some(2),
                    channels: Some(6),
                    codec: Some("eac3".into()),
                    ..Default::default()
                }],
                ..Default::default()
            }],
            ..Default::default()
        }],
        thumb: Some("/library/metadata/42/thumb/1".into()),
        parent_rating_key: Some("150".into()),
        grandparent_rating_key: Some("100".into()),
        ..Default::default()
    };

    let (poster, backdrop, thumbs) = detail_image_paths(&detail);
    assert_eq!(poster.as_deref(), Some("/library/metadata/42/thumb/1"));
    assert_eq!(backdrop, None, "a movie's backdrop is its art");
    assert_eq!(thumbs.len(), 2);

    let dto = to_detail("plexA", detail, no_images());
    assert_eq!(dto.rating_key, "plexA:42");
    assert_eq!(dto.source_id, "plexA");
    assert_eq!(dto.genres, ["Action"]);
    assert_eq!(dto.cast.len(), 1);
    assert_eq!(dto.cast[0].name, "Actor One");
    assert_eq!(dto.cast[0].role.as_deref(), Some("Hero"));
    assert_eq!(dto.cast[0].thumb, None);
    assert_eq!(dto.cast[0].person_key.as_deref(), Some("plexA:123"));
    assert_eq!(dto.directors.len(), 3);
    assert_eq!(dto.directors[0].person_key.as_deref(), Some("plexA:456"));
    assert_eq!(dto.directors[1].person_key, None);
    assert_eq!(dto.directors[2].person_key, None);
    assert_eq!(dto.writers[0].person_key.as_deref(), Some("plexA:789"));
    assert_eq!(dto.poster, None);
    assert_eq!(dto.played, Some(false));
    assert_eq!(dto.parent_rating_key.as_deref(), Some("plexA:150"));
    assert_eq!(dto.grandparent_rating_key.as_deref(), Some("plexA:100"));
    assert_eq!(dto.media.len(), 1);
    assert!(dto.media[0].hdr);
    assert_eq!(dto.media[0].video_resolution.as_deref(), Some("1080"));
    assert_eq!(dto.media[0].streams.len(), 1);
    assert_eq!(dto.media[0].streams[0].channels, Some(6));
    assert_eq!(dto.media[0].streams[0].codec.as_deref(), Some("eac3"));
}

#[test]
fn to_detail_takes_role_thumbs_by_position_and_episode_stills() {
    let detail = PlexDetail {
        rating_key: "7".into(),
        media_type: Some("episode".into()),
        thumb: Some("/still".into()),
        art: Some("/art".into()),
        view_count: Some(3),
        roles: vec![
            PlexRole { tag: String::new(), ..Default::default() },
            PlexRole { tag: "B".into(), role: Some(String::new()), ..Default::default() },
        ],
        ..Default::default()
    };
    let (_, backdrop, _) = detail_image_paths(&detail);
    assert_eq!(backdrop.as_deref(), Some("/still"));
    let images = DetailImages {
        poster: Some("P".into()),
        backdrop: Some("B".into()),
        role_thumbs: vec![Some("first".into()), Some("second".into())],
    };
    let dto = to_detail("s", detail, images);
    assert_eq!(dto.played, Some(true));
    assert_eq!(dto.poster.as_deref(), Some("P"));
    assert_eq!(dto.cast.len(), 1);
    assert_eq!(dto.cast[0].thumb.as_deref(), Some("second"));
    assert_eq!(dto.cast[0].role, None, "a blank role is no role");
}

#[test]
fn to_item_namespaces_parent_and_grandparent_keys() {
    let images = || ItemImages { poster: None, series_poster: None, backdrop: None };
    let ep = PlexVideo {
        rating_key: "202".into(),
        title: "Next Up".into(),
        media_type: Some("episode".into()),
        parent_rating_key: Some("150".into()),
        grandparent_rating_key: Some("100".into()),
        ..Default::default()
    };
    let dto = to_item("plexA", ep, images());
    assert_eq!(dto.parent_rating_key.as_deref(), Some("plexA:150"));
    assert_eq!(dto.grandparent_rating_key.as_deref(), Some("plexA:100"));

    let movie = PlexVideo {
        rating_key: "9".into(),
        title: "A Movie".into(),
        ..Default::default()
    };
    let dto = to_item("plexA", movie, images());
    assert_eq!(dto.parent_rating_key, None);
    assert_eq!(dto.grandparent_rating_key, None);
    assert_eq!(dto.played, Some(false), "absent view count is unwatched");
}

#[test]
fn to_item_carries_stamps_in_ms_and_provider_ids() {
    let v = PlexVideo {
        rating_key: "5".into(),
        title: "T".into(),
        view_count: Some(1),
        added_at: Some(1_700_000_000),
        last_viewed_at: Some(u64::MAX),
        thumb: Some("/thumb".into()),
        art: Some("/art".into()),
        grandparent_thumb: Some("/show".into()),
        guids: vec![
            PlexGuid { id: "IMDB://tt0133093".into() },
            PlexGuid { id: "plex://movie/5d776?lang=en".into() },
            PlexGuid { id: "tmdb://".into() },
            PlexGuid { id: "local".into() },
        ],
        ..Default::default()
    };
    let (poster, series, backdrop) = item_image_paths(&v);
    assert_eq!(poster.as_deref(), Some("/thumb"));
    assert_eq!(series.as_deref(), Some("/show"));
    assert_eq!(backdrop.as_deref(), Some("/art"));
    let dto = to_item("p", v, ItemImages { poster: None, series_poster: None, backdrop: None });
    assert_eq!(dto.added_at_ms, Some(1_700_000_000_000));
    assert_eq!(dto.last_watched_at_ms, Some(u64::MAX), "saturates");
    assert_eq!(dto.played, Some(true));
    assert_eq!(dto.provider_ids, vec!["imdb:tt0133093", "plex:movie/5d776"]);
}

fn row(rating_key: &str, key: &str, title: &str) -> PlexVideo {
    PlexVideo {
        rating_key: rating_key.into(),
        key: key.into(),
        title: title.into(),
        ..Default::default()
    }
}

#[test]
fn listing_rows_come_back_in_document_order() {
    let xml = r#"<MediaContainer>
        <Directory key="/library/metadata/3/children" title="Show"/>
        <Video ratingKey="1" key="/library/metadata/1" title="A"/>
        <Metadata ratingKey="2" key="/library/metadata/2" title="B"></Metadata>
        <Other ratingKey="9"/>
    </MediaContainer>"#;
    let ids = row_order(&read_events(xml));
    assert_eq!(ids, vec!["/library/metadata/3/children", "1", "2"]);

    let dir = video_from_dir(PlexDir {
        key: "/library/metadata/3/children".into(),
        rating_key: None,
        title: "Show".into(),
        media_type: None,
        thumb: None,
        year: None,
        summary: None,
        added_at: None,
        last_viewed_at: None,
        parent_rating_key: None,
    });
    assert_eq!(dir.rating_key, "/library/metadata/3/children");
    assert_eq!(dir.media_type.as_deref(), Some("directory"));

    let merged = merge_in_document_order(
        &ids,
        vec![row("1", "/library/metadata/1", "A"), row("8", "/x", "Stray")],
        vec![row("2", "/library/metadata/2", "B")],
        vec![dir],
    );
    let titles: Vec<&str> = merged.iter().map(|v| v.title.as_str()).collect();
    assert_eq!(titles, vec!["Show", "A", "B", "Stray"]);
}

#[test]
fn row_ids_are_read_as_written() {
    let xml = r#"<MediaContainer><Video ratingKey="a&amp;b"/><Directory key="/x&amp;y"/></MediaContainer>"#;
    assert_eq!(row_order(&read_events(xml)), vec!["a&amp;b".to_string(), "/x&amp;y".to_string()]);
}
