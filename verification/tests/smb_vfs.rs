use base64::engine::general_purpose::URL_SAFE_NO_PAD;
use base64::Engine;
use vela_core::source::smb_vfs::{artwork_mime, artwork_url, normalize, parse_artwork_url};

#[test]
fn normalize_roots_and_cleans() {
    assert_eq!(normalize("/movies"), Some("/movies".to_string()));
    assert_eq!(
        normalize("/movies//4k/./x.mkv"),
        Some("/movies/4k/x.mkv".to_string())
    );
    assert_eq!(normalize("/"), Some("/".to_string()));
}

#[test]
fn artwork_urls_roundtrip_and_gate_extensions() {
    let url = artwork_url("m-1", "/movies/My Film (2021)/poster.jpg").unwrap();
    assert!(url.starts_with("velasmb://m-1/"), "{url}");
    let (host, b64) = url
        .strip_prefix("velasmb://")
        .unwrap()
        .split_once('/')
        .unwrap();
    let (mount, path) = parse_artwork_url(host, b64).expect("roundtrip parses");
    assert_eq!(mount, "m-1");
    assert_eq!(path, "/movies/My Film (2021)/poster.jpg");

    // Non-image and escaping payloads are refused outright.
    let mkv = URL_SAFE_NO_PAD.encode("/movies/film.mkv");
    assert!(parse_artwork_url("m-1", &mkv).is_none(), "extension whitelist");
    let escape = URL_SAFE_NO_PAD.encode("/../etc/passwd.png");
    assert!(parse_artwork_url("m-1", &escape).is_none(), "no escapes");
    assert!(parse_artwork_url("", "abc").is_none(), "mount id required");
    assert!(parse_artwork_url("m-1", "not!base64").is_none());
    assert_eq!(artwork_mime("/a/p.JPG"), Some("image/jpeg"));
    assert_eq!(artwork_mime("/a/p.nfo"), None);
}

#[test]
fn normalize_rejects_escapes_and_unrooted() {
    assert_eq!(normalize("/movies/../etc"), None);
    assert_eq!(normalize("../x"), None);
    assert_eq!(normalize("movies"), None, "unrooted is outside");
}
