use vela_core::plex_library::{part_url, part_url_for_media, PlexDetailMedia, PlexDetailPart};
use vela_core::source::plex::edl_part_urls;

#[test]
fn part_urls_carry_no_token_and_keep_download_flag() {
    const TOKEN: &str = "synthetic-active-token";
    // Server-relative part key, no existing query.
    assert_eq!(
        part_url(
            "https://plex.example:32400",
            "/library/parts/42/file.mkv",
            TOKEN
        )
        .as_deref(),
        Some("https://plex.example:32400/library/parts/42/file.mkv?download=1")
    );
    // A part key that already has a query keeps it and appends with '&'.
    assert_eq!(
        part_url(
            "https://plex.example:32400",
            "/library/parts/42/file.mkv?x=1",
            TOKEN
        )
        .as_deref(),
        Some("https://plex.example:32400/library/parts/42/file.mkv?x=1&download=1")
    );
    // An absolute part URL is re-rooted onto our chosen server origin.
    let u = part_url(
        "https://plex.example:32400",
        "https://other.host:12345/library/parts/7/file.mkv?y=2",
        TOKEN,
    )
    .unwrap();
    assert_eq!(
        u,
        "https://plex.example:32400/library/parts/7/file.mkv?y=2&download=1"
    );
    // The credential must never ride in the URL; it travels as a header.
    assert!(!u.contains("X-Plex-Token"));
}

#[test]
fn provider_part_keys_with_credentials_fail_closed() {
    const TOKEN: &str = "synthetic-active-token";
    for key in [
        "/library/parts/1/file.mkv?X-Plex-Token=other-token",
        "/library/parts/1/file.mkv?x%2dplex%2dtoken=other-token",
        "/library/parts/1/file.mkv?authorization=synthetic-active-token",
        "/library/parts/1/file.mkv?authorization=Bearer%20synthetic-active-token",
        "/library/parts/1/file.mkv?note=prefix-synthetic-active-token-suffix",
        "/library/parts/1/file.mkv?synthetic-active-token=value",
        "/library/parts/synthetic-active-token/file.mkv",
        "https://other.test/library/parts/1/file.mkv?X-Plex-Token=other-token",
    ] {
        assert_eq!(
            part_url("https://plex.example:32400", key, TOKEN),
            None,
            "{key:?} must not produce a playable URL"
        );
    }
}

fn media(keys: &[&str]) -> PlexDetailMedia {
    PlexDetailMedia {
        parts: keys
            .iter()
            .map(|k| PlexDetailPart { key: k.to_string(), ..Default::default() })
            .collect(),
        ..Default::default()
    }
}

#[test]
fn split_media_plays_through_an_edl_of_its_parts() {
    let base = "https://plex.example:32400";
    let one = part_url_for_media(base, "synthetic-token", &media(&["/library/parts/1/a.mkv"])).unwrap();
    assert_eq!(one, "https://plex.example:32400/library/parts/1/a.mkv?download=1");

    let edl = part_url_for_media(
        base,
        "synthetic-token",
        &media(&["/library/parts/1/a.mkv", "/library/parts/2/b;%c.mkv"]),
    )
    .unwrap();
    assert!(edl.starts_with("edl://%"));
    let parts = edl_part_urls(&edl);
    assert_eq!(parts.len(), 2);
    assert_eq!(parts[0], "https://plex.example:32400/library/parts/1/a.mkv?download=1");
    assert!(parts[1].starts_with("https://plex.example:32400/library/parts/2/"));
    assert!(parts[1].ends_with("?download=1"));

    assert_eq!(part_url_for_media(base, "synthetic-token", &media(&[])), None);
    assert_eq!(part_url_for_media(base, "synthetic-token", &media(&["/a", ""])), None);
    assert_eq!(
        part_url_for_media(base, "synthetic-token", &media(&["/a", "/b?X-Plex-Token=x"])),
        None,
        "one credential-bearing part refuses the whole version"
    );
}
