use vela_core::source::plex::{edl_part_urls, preflight_targets};
use vela_core::source::plex::preflight_verdict;
use vela_core::sshfs::{identity_refusal, mount_failure_message, unmount_commands};

#[test]
fn identity_paths_with_commas_are_refused() {
    assert_eq!(
        identity_refusal("/home/me/.ssh/id,ed25519").as_deref(),
        Some("identity file path cannot contain a comma")
    );
    assert_eq!(identity_refusal("/home/me/.ssh/id_ed25519"), None);
}

#[test]
fn mount_failures_explain_key_based_auth() {
    let msg = mount_failure_message("read: Connection reset by peer");
    assert!(msg.starts_with("read: Connection reset by peer. Vela uses SSH keys"));
    assert!(msg.ends_with("trust the host key with ssh first."));
}

#[test]
fn unmount_tries_fuse_helpers_before_umount_off_macos() {
    let linux = unmount_commands("/mnt/x", false);
    let names: Vec<&str> = linux.iter().map(|(n, _)| n.as_str()).collect();
    assert_eq!(names, vec!["fusermount3", "fusermount", "umount"]);
    assert_eq!(linux[0].1, vec!["-u", "/mnt/x"]);
    assert_eq!(linux[2].1, vec!["/mnt/x"]);
    let mac = unmount_commands("/mnt/x", true);
    assert_eq!(mac.len(), 1);
    assert_eq!(mac[0].0, "umount");
}

#[test]
fn preflight_passes_success_and_unsupported_head() {
    assert!(preflight_verdict(200).is_ok());
    assert!(preflight_verdict(206).is_ok());
    assert!(preflight_verdict(405).is_ok());
    assert_eq!(
        preflight_verdict(404).unwrap_err(),
        "File not found on the server — it may have been moved or deleted."
    );
    assert_eq!(
        preflight_verdict(401).unwrap_err(),
        "the media server rejected playback (HTTP 401)"
    );
    assert_eq!(
        preflight_verdict(503).unwrap_err(),
        "the media server rejected playback (HTTP 503)"
    );
}

#[test]
fn edl_urls_split_into_their_parts() {
    let a = "https://p.example/library/parts/1/file.mkv";
    let b = "https://p.example/library/parts/2/f\u{e9}.mkv";
    let edl = format!("edl://%{}%{};%{}%{}", a.len(), a, b.len(), b);
    assert_eq!(edl_part_urls(&edl), vec![a.to_string(), b.to_string()]);
    assert_eq!(preflight_targets(&edl), vec![a.to_string(), b.to_string()]);
    // A malformed entry ends the list; what came before stands.
    assert_eq!(edl_part_urls(&format!("edl://%{}%{};%x%y", a.len(), a)), vec![a.to_string()]);
    assert_eq!(edl_part_urls("edl://%99%short"), Vec::<String>::new());
    assert_eq!(edl_part_urls(&format!("%+{}%{}", a.len(), a)), vec![a.to_string()]);
    assert_eq!(preflight_targets(a), vec![a.to_string()]);
    assert!(preflight_targets("/media/movies/film.mkv").is_empty());
}
