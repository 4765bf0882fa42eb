use vela_core::plex_library::resume_offset_from_events;
use vela_core::xml::read_events;
use vela_core::plex_library::hubs_from_xml;
use vela_core::plex_library::{
    playlists_from_xml, video_from_attrs, video_from_dir, videos_from_xml, PlexDir, PlexPlaylist,
};

fn attrs(pairs: &[(&str, &str)]) -> Vec<(String, String)> {
    pairs.iter().map(|(k, v)| (k.to_string(), v.to_string())).collect()
}

#[test]
fn playlist_xml_accepts_legacy_and_metadata_rows_but_only_video() {
    let xml = r#"
      <MediaContainer size="4">
        <Playlist ratingKey="11" key="/playlists/11/items"
                  title="Films &amp; Shorts" type="playlist"
                  playlistType="video" leafCount="3" />
        <Metadata ratingKey="12" key="/playlists/12/items"
                  title="Smart Picks" type="playlist"
                  playlistType="video" leafCount="8" />
        <Metadata ratingKey="13" key="/playlists/13/items"
                  title="Songs" type="playlist"
                  playlistType="audio" leafCount="20" />
        <Directory ratingKey="14" title="Not a playlist" type="collection" />
      </MediaContainer>
    "#;
    assert_eq!(
        playlists_from_xml(xml).unwrap(),
        vec![
            PlexPlaylist {
                rating_key: "11".to_string(),
                title: "Films & Shorts".to_string(),
                leaf_count: Some(3),
            },
            PlexPlaylist {
                rating_key: "12".to_string(),
                title: "Smart Picks".to_string(),
                leaf_count: Some(8),
            },
        ]
    );
    assert!(playlists_from_xml("<MediaContainer><Playlist").is_err());
}

#[test]
fn on_deck_body_parses_items_with_last_viewed_stamp() {
    let xml = r#"
        <MediaContainer size="2">
          <Video ratingKey="101" key="/library/metadata/101" title="Blood and Bone"
                 type="movie" viewOffset="1200000" lastViewedAt="1751500000" />
          <Video ratingKey="202" key="/library/metadata/202" title="Next Up"
                 type="episode" grandparentTitle="Show" index="3" parentIndex="1" />
        </MediaContainer>
    "#;
    let items = videos_from_xml(xml);
    assert_eq!(items.len(), 2);
    assert_eq!(items[0].rating_key, "101");
    assert_eq!(items[0].last_viewed_at, Some(1_751_500_000));
    assert_eq!(items[0].view_offset, Some(1_200_000));
    assert_eq!(items[1].media_type.as_deref(), Some("episode"));
    assert_eq!(items[1].last_viewed_at, None);
    assert_eq!(items[1].index, Some(3));
    assert_eq!(items[1].parent_index, Some(1));
}

#[test]
fn video_attrs_capture_series_poster_and_backdrop_art() {
    let v = video_from_attrs(&attrs(&[
        ("ratingKey", "42"),
        ("title", "Fallen Angel"),
        ("thumb", "/library/metadata/42/thumb/1"),
        ("grandparentThumb", "/library/metadata/7/thumb/9"),
        ("art", "/library/metadata/7/art/9"),
    ]));
    assert_eq!(v.thumb.as_deref(), Some("/library/metadata/42/thumb/1"));
    assert_eq!(
        v.grandparent_thumb.as_deref(),
        Some("/library/metadata/7/thumb/9")
    );
    assert_eq!(v.art.as_deref(), Some("/library/metadata/7/art/9"));
}

#[test]
fn video_attrs_fall_back_to_key_and_drop_unparsable_numbers() {
    let v = video_from_attrs(&attrs(&[
        ("key", "/library/metadata/5"),
        ("duration", "12x"),
        ("year", "+1999"),
        ("viewCount", "18446744073709551616"),
        ("index", "2"),
        ("index", "3"),
    ]));
    assert_eq!(v.rating_key, "/library/metadata/5");
    assert_eq!(v.duration, None);
    assert_eq!(v.year, Some(1999));
    assert_eq!(v.view_count, None, "past u64 is no number");
    assert_eq!(v.index, Some(3), "the later attribute wins");
    assert_eq!(v.title, "");
}

#[test]
fn plexdir_carries_added_and_last_viewed_into_video() {
    let d = PlexDir {
        key: "/k".into(),
        rating_key: Some("rk".into()),
        title: "Some Show".into(),
        media_type: Some("show".into()),
        thumb: None,
        year: Some(2020),
        summary: None,
        added_at: Some(1_700_000_000),
        last_viewed_at: Some(1_751_000_000),
        parent_rating_key: None,
    };
    let v = video_from_dir(d);
    assert_eq!(v.added_at, Some(1_700_000_000));
    assert_eq!(v.last_viewed_at, Some(1_751_000_000));
    assert_eq!(v.rating_key, "rk");
}

#[test]
fn resume_point_prefers_the_exact_item_then_the_first_offset() {
    let xml = r#"<MediaContainer>
        <Video ratingKey="5" viewOffset="1000"/>
        <Video ratingKey="6" viewOffset="bad" />
        <Metadata ratingKey="7" viewOffset="3000" viewOffset="x"/>
    </MediaContainer>"#;
    let evs = read_events(xml);
    assert_eq!(resume_offset_from_events(&evs, "7"), Some(3000));
    assert_eq!(resume_offset_from_events(&evs, "6"), Some(1000), "falls back to the first offset");
    assert_eq!(resume_offset_from_events(&read_events("<MediaContainer/>"), "1"), None);
}

#[test]
fn hubs_keep_server_order_and_drop_empty_rows() {
    let xml = r#"<MediaContainer>
        <Hub title="Continue Watching" hubIdentifier="home.continue" type="mixed">
          <Video ratingKey="1" title="A"/>
          <Directory ratingKey="2" title="B" type="show"/>
          <Metadata ratingKey="3" title="C"/>
        </Hub>
        <Hub title="Empty" hubIdentifier="home.empty" type="movie"></Hub>
        <Hub title="Recently Added" hubIdentifier="home.recent" type="movie">
          <Video ratingKey="4" title="D"/>
        </Hub>
        <Video ratingKey="9" title="Outside any hub"/>
    </MediaContainer>"#;
    let hubs = hubs_from_xml(xml);
    assert_eq!(hubs.len(), 2);
    assert_eq!(hubs[0].hub_identifier, "home.continue");
    let keys: Vec<&str> = hubs[0].items.iter().map(|v| v.rating_key.as_str()).collect();
    assert_eq!(keys, vec!["1", "2", "3"]);
    assert_eq!(hubs[1].title, "Recently Added");
    assert_eq!(hubs[1].items.len(), 1);
}

#[test]
fn resume_keys_are_matched_as_written() {
    let evs = read_events(
        r#"<MediaContainer>
             <Video ratingKey="a&amp;b" viewOffset="10"/>
             <Video ratingKey="c" viewOffset="20"/>
           </MediaContainer>"#,
    );
    assert_eq!(resume_offset_from_events(&evs, "a&amp;b"), Some(10));
    assert_eq!(resume_offset_from_events(&evs, "c"), Some(20));
    assert_eq!(resume_offset_from_events(&evs, "a&b"), Some(10), "falls back to the first row");
}

#[test]
fn a_malformed_playlist_row_fails_the_listing() {
    let bad = r#"<MediaContainer><Playlist ratingKey="1" ratingKey="2" title="t" type="playlist"/></MediaContainer>"#;
    assert!(playlists_from_xml(bad).is_err());
    // Malformed attributes elsewhere are not the playlist reader's concern.
    let other = r#"<MediaContainer><Video a="1" a="2"/><Playlist ratingKey="7" title="t"/></MediaContainer>"#;
    let lists = playlists_from_xml(other).expect("listing reads");
    assert_eq!(lists.len(), 1);
    assert_eq!(lists[0].rating_key, "7");
}
