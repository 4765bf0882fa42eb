use vela_core::config::{AppConfig, LocalFolder, SmbMount, SshMount};
use vela_core::source::local::{
    is_local_family_id, is_video, local_family, parse_episode, parse_movie, parse_season_dir,
    smb_source_id, ssh_source_id, LOCAL_SOURCE_ID,
};

#[test]
fn movie_names() {
    assert_eq!(
        parse_movie("The Matrix (1999)"),
        ("The Matrix".into(), Some(1999))
    );
    assert_eq!(
        parse_movie("Inception.2010.1080p.BluRay"),
        ("Inception".into(), Some(2010))
    );
    assert_eq!(parse_movie("Some_Movie"), ("Some Movie".into(), None));
}

#[test]
fn episode_markers() {
    assert_eq!(parse_episode("Show.S01E05.Title"), Some((1, 5)));
    assert_eq!(parse_episode("show s1e2"), Some((1, 2)));
    assert_eq!(parse_episode("Show.S12E113"), Some((12, 113)));
    assert_eq!(parse_episode("no markers here"), None);
}

#[test]
fn season_dirs() {
    assert_eq!(parse_season_dir("Season 01"), Some(1));
    assert_eq!(parse_season_dir("season 3"), Some(3));
    assert_eq!(parse_season_dir("Specials"), Some(0));
    assert_eq!(parse_season_dir("Extras"), None);
}

#[test]
fn video_detection() {
    assert!(is_video("/x/a.mkv"));
    assert!(is_video("/x/a.MP4"));
    assert!(!is_video("/x/a.nfo"));
    assert!(!is_video("/x/a"));
}

fn folder(id: &str, name: &str, path: &str) -> LocalFolder {
    LocalFolder {
        id: id.into(),
        name: name.into(),
        path: path.into(),
        kind: String::new(),
    }
}

#[test]
fn local_family_groups_plain_smb_ssh_with_identity() {
    let mut cfg = AppConfig::default();
    cfg.local_folders.push(folder("f1", "Movies", "/media/movies"));
    // Owned by the SSH mount below: must not also appear under "Local".
    cfg.local_folders.push(folder("sshfld", "remote", "/mnt/ssh"));
    cfg.smb_mounts.push(SmbMount {
        id: "m1".into(),
        name: "nagatha/media".into(),
        ..SmbMount::default()
    });
    cfg.ssh_mounts.push(SshMount {
        id: "s1".into(),
        name: "skippy:/video".into(),
        local_folder_id: "sshfld".into(),
        ..SshMount::default()
    });

    let fam = local_family(
        &cfg,
        vec![vec![folder("smbf", "movies", "/mnt/smb/movies")]],
        vec![Some(folder("sshfld", "remote", "/mnt/ssh"))],
        &Vec::new(),
    );

    let ids: Vec<_> = fam.iter().map(|m| m.id.as_str()).collect();
    assert_eq!(ids, vec!["local", "smb-m1", "ssh-s1"]);
    assert_eq!(
        fam[0].folders.len(),
        1,
        "SSH-owned folder must be excluded from the plain local member"
    );
    assert_eq!(fam[0].name, "Local");
    assert_eq!(fam[1].name, "nagatha/media");
    assert_eq!(fam[1].kind, "smb");
    assert_eq!(fam[2].name, "skippy:/video");
    assert_eq!(fam[2].kind, "ssh");
}

#[test]
fn local_family_omits_empty_members_and_unsafe_roots() {
    let mut cfg = AppConfig::default();
    cfg.local_folders.push(folder("f1", "Movies", "/"));
    cfg.smb_mounts.push(SmbMount {
        id: "m1".into(),
        name: "empty share".into(),
        ..SmbMount::default()
    });

    // The SMB mount resolves no folders and the plain folder fails the
    // safe-root check, so no member survives at all.
    let fam = local_family(&cfg, vec![Vec::new()], Vec::new(), &vec!["/".to_string()]);
    assert!(fam.is_empty());
}

#[test]
fn local_family_id_prefixes_route_and_classify() {
    assert!(is_local_family_id(LOCAL_SOURCE_ID));
    assert!(is_local_family_id(&smb_source_id("abc")));
    assert!(is_local_family_id(&ssh_source_id("abc")));
    assert!(!is_local_family_id("plex"));
}
