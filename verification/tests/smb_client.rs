use vela_core::smb_client::{cstr_buffer, is_dir_attrs, smb_url};

#[test]
fn smb_url_joins_server_share_and_relative() {
    assert_eq!(smb_url("nas", "media", ""), "smb://nas/media");
    assert_eq!(
        smb_url("10.1.10.206", "media", "movies/4k"),
        "smb://10.1.10.206/media/movies/4k"
    );
}

#[test]
fn smb_url_normalizes_stray_slashes() {
    assert_eq!(smb_url(" nas ", "/media/", ""), "smb://nas/media");
    assert_eq!(smb_url("nas", "media", "a//b/"), "smb://nas/media/a/b");
    // Sub-share config like "media/movies" keeps its inner slash.
    assert_eq!(smb_url("nas", "media/movies", ""), "smb://nas/media/movies");
}

#[test]
fn write_cstr_buf_truncates_and_nul_terminates() {
    let bytes = cstr_buffer(b"secretpassword", 6);
    assert_eq!(&bytes[..5], b"secre");
    assert_eq!(bytes[5], 0);
    assert_eq!(bytes.len(), 6);
}

#[test]
fn write_cstr_buf_strips_interior_nuls() {
    let bytes = cstr_buffer(b"a\0bc", 8);
    assert_eq!(&bytes[..3], b"abc");
    assert_eq!(bytes[3], 0);
}

#[test]
fn write_cstr_buf_handles_empty_and_tiny_buffers() {
    assert!(cstr_buffer(b"x", 0).is_empty(), "no room writes nothing");
    let bytes = cstr_buffer(b"value", 1);
    assert_eq!(bytes, vec![0u8], "room only for the terminator");
}

#[test]
fn dos_directory_attr_maps_to_is_dir() {
    assert!(is_dir_attrs(0x10)); // directory
    assert!(is_dir_attrs(0x30)); // directory + archive
    assert!(!is_dir_attrs(0x20)); // archive only (plain file)
    assert!(!is_dir_attrs(0x02)); // hidden file
}
