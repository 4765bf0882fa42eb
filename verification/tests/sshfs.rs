use vela_core::config::SshMount;
use vela_core::sshfs::{not_found_message, remote_spec, SSHFS_OPTIONS};

fn mount() -> SshMount {
    SshMount {
        host: "media.example.test".into(),
        username: "michael".into(),
        remote_path: "/srv/media".into(),
        port: 2222,
        ..SshMount::default()
    }
}

#[test]
fn remote_spec_includes_user_host_port_path_shape() {
    assert_eq!(
        remote_spec(&mount()),
        "michael@media.example.test:/srv/media"
    );
}

#[test]
fn ipv6_host_is_bracketed() {
    let mut m = mount();
    m.host = "2001:db8::10".into();
    assert_eq!(remote_spec(&m), "michael@[2001:db8::10]:/srv/media");
}

// Bare "install sshfs" advice is a dead end on macOS (Homebrew core's
// formula needs Linux-only libfuse), so the message must name the actual
// macFUSE route there and package-manager advice elsewhere.
#[test]
fn not_found_message_is_platform_aware() {
    let msg = not_found_message(true);
    assert!(msg.contains("macfuse"), "macOS message must name macFUSE: {msg}");
    assert!(msg.contains("sshfs-mac"), "macOS message must name the tap build: {msg}");
    let msg = not_found_message(false);
    assert!(msg.contains("package manager"), "non-mac message: {msg}");
}

// The SSH seek stall comes from a single SFTP channel head-of-line-blocking
// a seek's read behind the readahead backlog, so parallel connections are
// requested.
#[test]
fn sshfs_options_request_parallel_sftp_channels() {
    let n: u32 = SSHFS_OPTIONS
        .iter()
        .find_map(|o| o.strip_prefix("max_conns="))
        .expect("SSHFS_OPTIONS must include max_conns for parallel channels")
        .parse()
        .expect("max_conns must be numeric");
    assert!(n >= 2, "max_conns must be >= 2 to break head-of-line blocking, got {n}");
}
