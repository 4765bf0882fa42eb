use vela_core::source::jellyfin::{
    map_sort, scan_query, select_media_source, vf_route, BaseItem, Flavor, JellyfinClient,
    JellyfinSource, MediaSourceInfo, MediaStreamInfo, VfEnvelope,
};

fn media_source(
    id: &str,
    direct_play: bool,
    direct_stream: bool,
    hdr: bool,
    height: u32,
    bitrate: u64,
) -> MediaSourceInfo {
    MediaSourceInfo {
        id: id.to_string(),
        supports_direct_play: Some(direct_play),
        supports_direct_stream: Some(direct_stream),
        is_remote: Some(false),
        bitrate: Some(bitrate),
        size: None,
        width: Some(height * 16 / 9),
        height: Some(height),
        media_streams: vec![MediaStreamInfo {
            stream_type: Some("Video".to_string()),
            video_range: Some(if hdr { "HDR10" } else { "SDR" }.to_string()),
            video_range_type: None,
            bit_rate: Some(bitrate),
            width: Some(height * 16 / 9),
            height: Some(height),
        }],
    }
}


fn test_client() -> JellyfinClient {
    JellyfinClient::new(Flavor::Jellyfin, "http://jf.example:8096", "dev", "tok", "u1")
}


#[test]
fn map_sort_maps_leaf_added_to_date_last_content_added() {
    let (by, order) = map_sort(Some("episodeAddedAt:desc"));
    assert_eq!(by, "DateLastContentAdded");
    assert_eq!(order, "Descending");
    // The series-level date-added sort stays distinct from the leaf one.
    let (by, _) = map_sort(Some("addedAt:desc"));
    assert_eq!(by, "DateCreated");
}


#[test]
fn vf_route_is_flavor_specific() {
    // Branch-flip guard: each flavor must map to ITS documented route —
    // swapping the match arms fails both assertions.
    assert_eq!(
        vf_route(Flavor::Jellyfin),
        ("/Library/VirtualFolders", VfEnvelope::Bare)
    );
    assert_eq!(
        vf_route(Flavor::Emby),
        ("/Library/VirtualFolders/Query", VfEnvelope::Items)
    );
}


#[test]
fn scan_query_is_a_plain_nondestructive_scan() {
    // A scan must not become a destructive metadata/image rewrite: these
    // are the values jellyfin-web's own scan dialog sends. Literal by
    // design (see scan_url_shape_and_rejections).
    assert_eq!(
        scan_query(),
        [
            ("Recursive", "true"),
            ("MetadataRefreshMode", "Default"),
            ("ImageRefreshMode", "Default"),
            ("ReplaceAllMetadata", "false"),
            ("ReplaceAllImages", "false"),
            ("RegenerateTrickplay", "false"),
        ]
    );
}


#[test]
fn to_item_namespaces_season_and_series_keys() {
    let src = JellyfinSource::new("jfA", "JF", test_client());
    let ep = BaseItem {
        id: "ep7".into(),
        item_type: Some("Episode".into()),
        season_id: Some("sea4".into()),
        series_id: Some("ser1".into()),
        ..Default::default()
    };
    let dto = src.to_item(&ep);
    assert_eq!(dto.parent_rating_key.as_deref(), Some("jfA:sea4"));
    assert_eq!(dto.grandparent_rating_key.as_deref(), Some("jfA:ser1"));

    // A season's parent is its series; it has no grandparent.
    let season = BaseItem {
        id: "sea4".into(),
        item_type: Some("Season".into()),
        series_id: Some("ser1".into()),
        ..Default::default()
    };
    let dto = src.to_item(&season);
    assert_eq!(dto.parent_rating_key.as_deref(), Some("jfA:ser1"));
    assert_eq!(dto.grandparent_rating_key, None);

    // Movies carry neither.
    let movie = BaseItem {
        id: "m1".into(),
        item_type: Some("Movie".into()),
        ..Default::default()
    };
    let dto = src.to_item(&movie);
    assert_eq!(dto.parent_rating_key, None);
    assert_eq!(dto.grandparent_rating_key, None);
}


#[test]
fn artwork_urls_are_sized_and_encoded() {
    let c = test_client();
    let bd = c.backdrop_url("item1", "tag/1");
    assert!(bd.starts_with("http://jf.example:8096/Items/item1/Images/Backdrop/0?"));
    assert!(bd.contains("fillHeight=1080"));
    assert!(bd.contains("fillWidth=1920"));
    // The tag rides percent-encoded so it can't malform the query.
    assert!(bd.contains("tag=tag%2F1"));

    // Episode hero stills come from Primary at the same hero resolution.
    let hs = c.hero_still_url("ep7", "t7");
    assert!(hs.contains("/Items/ep7/Images/Primary"));
    assert!(hs.contains("fillHeight=1080"));
    assert!(hs.contains("fillWidth=1920"));

    // The series poster reuses the primary-image shape at grid size.
    let sp = c.poster_url("series9", "t9");
    assert!(sp.contains("/Items/series9/Images/Primary"));
    assert!(sp.contains("fillHeight=450"));
    assert!(sp.contains("fillWidth=300"));
}


#[test]
fn media_source_selection_prefers_hdr_direct_candidates() {
    let sources = vec![
        media_source("sdr-4k", true, true, false, 2160, 80_000_000),
        media_source("hdr-1080", true, true, true, 1080, 20_000_000),
    ];

    assert_eq!(
        select_media_source(&sources).map(|s| s.id.as_str()),
        Some("hdr-1080")
    );
}


#[test]
fn media_source_selection_prefers_direct_play_over_direct_stream() {
    let sources = vec![
        media_source("direct-stream-hdr", false, true, true, 2160, 80_000_000),
        media_source("direct-play-sdr", true, true, false, 1080, 20_000_000),
    ];

    assert_eq!(
        select_media_source(&sources).map(|s| s.id.as_str()),
        Some("direct-play-sdr")
    );
}


#[test]
fn media_source_selection_falls_back_to_best_quality() {
    let sources = vec![
        media_source("sdr-720", false, false, false, 720, 5_000_000),
        media_source("hdr-4k", false, false, true, 2160, 60_000_000),
    ];

    assert_eq!(
        select_media_source(&sources).map(|s| s.id.as_str()),
        Some("hdr-4k")
    );
}

#[test]
fn scan_url_shape_and_rejections() {
    let c = JellyfinClient::new(Flavor::Jellyfin, "http://s:8096", "dev", "sekrit", "u1");
    let url = c.scan_url("lib1").unwrap();
    assert_eq!(
        url,
        "http://s:8096/Items/lib1/Refresh?Recursive=true&MetadataRefreshMode=Default\
         &ImageRefreshMode=Default&ReplaceAllMetadata=false&ReplaceAllImages=false\
         &RegenerateTrickplay=false"
    );
    assert!(!url.contains("sekrit"));
    for bad in ["", ".", ".."] {
        assert!(c.scan_url(bad).is_err(), "{bad:?} must be rejected");
    }
}

#[test]
fn scan_url_keeps_a_hostile_id_in_one_path_segment() {
    let c = JellyfinClient::new(Flavor::Jellyfin, "http://s:8096", "dev", "sekrit", "u1");
    for bad in [
        "../System/Shutdown?x=",
        "..\\System\\Shutdown",
        "a/b",
        "lib1?ReplaceAllMetadata=true",
        "lib1#frag",
    ] {
        let raw = c
            .scan_url(bad)
            .unwrap_or_else(|e| panic!("{bad:?} should be encoded, not rejected: {e}"));
        let u = url::Url::parse(&raw).unwrap_or_else(|e| panic!("{bad:?} -> {raw}: {e}"));
        let segs: Vec<&str> = u.path_segments().expect("cannot-be-a-base").collect();
        assert_eq!(
            segs.len(),
            3,
            "{bad:?} escaped the /Items/<id>/Refresh shape: {}",
            u.path()
        );
        assert_eq!(segs[0], "Items", "{bad:?} moved the endpoint: {}", u.path());
        assert_eq!(
            segs[2], "Refresh",
            "{bad:?} moved the endpoint: {}",
            u.path()
        );
        assert!(u.fragment().is_none(), "{bad:?} smuggled a fragment");
        let q = u.query().unwrap_or_default();
        assert_eq!(
            q.split('&').count(),
            scan_query().len(),
            "{bad:?} smuggled query params: {q}"
        );
    }
}

#[test]
fn home_rails_appear_only_with_items() {
    let src = JellyfinSource::new("jfA", "JF", test_client());
    let item = |id: &str| BaseItem { id: id.into(), item_type: Some("Movie".into()), ..Default::default() };
    let hubs = src.home_hubs(&vec![item("r1")], &vec![item("l1"), item("l2")]);
    assert_eq!(hubs.len(), 2);
    assert_eq!(hubs[0].title, "Continue Watching");
    assert_eq!(hubs[0].hub_identifier, "resume");
    assert_eq!(hubs[0].items[0].rating_key, "jfA:r1");
    assert_eq!(hubs[1].title, "Recently Added");
    assert_eq!(hubs[1].hub_identifier, "latest");
    assert_eq!(hubs[1].hub_type, "video");
    assert_eq!(hubs[1].items.len(), 2);
    assert_eq!(hubs[1].source_name, "JF");
    let only_latest = src.home_hubs(&vec![], &vec![item("l1")]);
    assert_eq!(only_latest.len(), 1);
    assert_eq!(only_latest[0].hub_identifier, "latest");
    assert!(src.home_hubs(&vec![], &vec![]).is_empty());
}
