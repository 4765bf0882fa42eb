use vela_core::source::{
    episode_context_from_detail, normalize_markers, quality_tiers, tiers_for_source, DetailDto,
    EpisodeContext, MarkerKind, MediaMarker, PlaybackOptions, MAX_MARKER_MS,
};

// The three live Plex samples the ladder reproduces; they are why the filter
// is resolution-only.
#[test]
fn tier_filtering_reproduces_every_observed_plex_sample() {
    assert_eq!(
        tiers_for_source(2160).len(),
        9,
        "a 4K source offers the whole ladder"
    );

    // Decisive: the source is 10 Mbps, and Plex still offers 20 and 12.
    // A bitrate filter would wrongly drop them.
    let hd = tiers_for_source(1080);
    assert_eq!(hd.len(), 9, "a 1080p source offers the whole ladder");
    assert!(
        hd.iter().any(|tier| tier.bitrate_kbps == 20_000)
            && hd.iter().any(|tier| tier.bitrate_kbps == 12_000),
        "tiers above the source bitrate are still offered"
    );

    // Decisive the other way: 480p is 1.5 Mbps, exactly this source's
    // bitrate, and Plex drops it because 480 > 384.
    let low = tiers_for_source(384);
    assert_eq!(
        low.iter().map(|tier| tier.id).collect::<Vec<_>>(),
        vec!["328p-700"],
        "only tiers at or below the source height survive"
    );
}


// Two tiers are labelled "Convert to 1080p HD"; ids must still be unique or
// config and the command boundary cannot tell them apart.
#[test]
fn tier_ids_are_unique_even_where_labels_collide() {
    let tiers = quality_tiers();
    let mut ids: Vec<&str> = tiers.iter().map(|tier| tier.id).collect();
    let total = ids.len();
    ids.sort_unstable();
    ids.dedup();
    assert_eq!(ids.len(), total, "tier ids must be unique");

    let duplicated_label = tiers
        .iter()
        .filter(|tier| tier.label == "Convert to 1080p HD")
        .count();
    assert_eq!(
        duplicated_label, 2,
        "the two same-labelled tiers are expected; the UI must show bitrate"
    );
}


// A server that will not transcode offers nothing to transcode to, however
// large the file is.
#[test]
fn options_offer_no_tiers_when_the_server_cannot_transcode() {
    let refused = PlaybackOptions::new(true, false, 3840, 2160, 76_000);
    assert!(refused.tiers.is_empty());
    assert!(!refused.has_choice(), "direct play alone is not a choice");

    let offered = PlaybackOptions::new(true, true, 3840, 2160, 76_000);
    assert_eq!(offered.tiers.len(), 9);
    assert!(offered.has_choice());

    // Transcode-only: no Original entry, but still a choice among tiers.
    let no_direct = PlaybackOptions::new(false, true, 1920, 1080, 10_000);
    assert!(no_direct.has_choice());
}


fn marker(kind: MarkerKind, start_ms: u64, end_ms: u64) -> MediaMarker {
    MediaMarker {
        kind,
        start_ms,
        end_ms,
    }
}


// A range that ends at or before it starts is not skippable, and a
// half-hour "intro" is corrupt data — seeking across either would throw the
// viewer somewhere they never asked to be.
#[test]
fn normalize_drops_empty_inverted_and_implausibly_long_ranges() {
    let kept = normalize_markers(vec![
        marker(MarkerKind::Intro, 5_000, 4_000),
        marker(MarkerKind::Intro, 5_000, 5_000),
        marker(MarkerKind::Credits, 0, MAX_MARKER_MS + 1),
        marker(MarkerKind::Commercial, 10_000, 10_000 + MAX_MARKER_MS),
    ]);
    assert_eq!(
        kept,
        vec![marker(
            MarkerKind::Commercial,
            10_000,
            10_000 + MAX_MARKER_MS
        )],
        "only the plausible range survives, and the boundary length is kept"
    );
}


// Duplicates must go by the whole triple: the same span published as two
// different kinds is two real markers, not one repeated.
#[test]
fn normalize_drops_exact_duplicate_triples_but_keeps_distinct_kinds() {
    let kept = normalize_markers(vec![
        marker(MarkerKind::Intro, 1_000, 2_000),
        marker(MarkerKind::Credits, 1_000, 2_000),
        marker(MarkerKind::Intro, 1_000, 2_000),
    ]);
    assert_eq!(
        kept,
        vec![
            marker(MarkerKind::Intro, 1_000, 2_000),
            marker(MarkerKind::Credits, 1_000, 2_000),
        ],
        "the repeated Intro is dropped; the same-span Credits is not"
    );
}


// The runtime picks the first range containing the current position, which
// is only correct if the list is ordered by start.
#[test]
fn normalize_sorts_by_start_and_keeps_same_kind_overlaps() {
    let kept = normalize_markers(vec![
        marker(MarkerKind::Credits, 90_000, 120_000),
        marker(MarkerKind::Intro, 30_000, 60_000),
        marker(MarkerKind::Intro, 10_000, 45_000),
    ]);
    assert_eq!(
        kept,
        vec![
            marker(MarkerKind::Intro, 10_000, 45_000),
            marker(MarkerKind::Intro, 30_000, 60_000),
            marker(MarkerKind::Credits, 90_000, 120_000),
        ],
        "overlapping same-kind ranges are both kept, in start order"
    );
}


#[test]
fn detail_episode_context_keeps_exact_hierarchy_identity() {
    let episode = DetailDto {
        rating_key: "plex:300".into(),
        media_type: Some("episode".into()),
        index: Some(4),
        parent_index: Some(2),
        parent_rating_key: Some("plex:200".into()),
        grandparent_rating_key: Some("plex:100".into()),
        ..DetailDto::default()
    };
    assert_eq!(
        episode_context_from_detail(episode),
        Some(EpisodeContext {
            item_key: "plex:300".into(),
            season_key: Some("plex:200".into()),
            show_key: Some("plex:100".into()),
            episode_index: Some(4),
            season_index: Some(2),
        })
    );

    assert_eq!(
        episode_context_from_detail(DetailDto {
            rating_key: "plex:movie".into(),
            media_type: Some("movie".into()),
            ..DetailDto::default()
        }),
        None,
        "non-episodes must stop only-tv continuation",
    );
}
