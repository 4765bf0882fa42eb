use vela_core::config::SkipPolicy;
use vela_core::playback::{
    check_in_url, header_include_content, mpv_search_order, parse_extra_mpv_args, play_args,
    resolve_mpv, tracker_reports, tracking_route, CheckInKind, GpuPlatform, JellyfinTrack,
    MpvLaunch, PlaybackWindowState, Probe, ProgressTarget, ServerReport, TimelineState,
    TrackInfo, TrackerEvent, TrackingRoute,
};

fn launch() -> MpvLaunch {
    MpvLaunch {
        use_own_config: false,
        platform: GpuPlatform::Other,
        extra_args: None,
        autocrop_mode: None,
        autocrop_script: None,
        autocrop_shim: None,
        markers_script: None,
        intro_policy: SkipPolicy::Off,
        credits_policy: SkipPolicy::Off,
        commercial_policy: SkipPolicy::Off,
        marker_payload_written: false,
        inherited_window_state: PlaybackWindowState::default(),
        screen_name: None,
        ipc_path: "/run/vela.sock".into(),
        title: "Heat".into(),
        include_path: None,
        start: None,
        url: "https://plex.example/part/1.mkv".into(),
    }
}

#[test]
fn extra_mpv_args_are_one_trimmed_option_per_line() {
    let raw = "  --volume=50  \n\n# a comment\n--sub-font=Noto Sans\r\n   #also\n--fs";
    assert_eq!(
        parse_extra_mpv_args(raw),
        vec!["--volume=50", "--sub-font=Noto Sans", "--fs"]
    );
    assert!(parse_extra_mpv_args("").is_empty());
    assert!(parse_extra_mpv_args("\n \n#x").is_empty());
}

#[test]
fn header_include_writes_quoted_fields() {
    let headers = vec![
        ("X-Plex-Token".to_string(), "abc123".to_string()),
        ("X-Emby-Authorization".to_string(), "MediaBrowser Token=1".to_string()),
    ];
    assert_eq!(
        header_include_content(&headers).unwrap(),
        "http-header-fields=\"X-Plex-Token: abc123,X-Emby-Authorization: MediaBrowser Token=1\"\n"
    );
    assert_eq!(
        header_include_content(&Vec::new()).unwrap(),
        "http-header-fields=\"\"\n"
    );
}

#[test]
fn header_include_fails_closed_on_conf_escaping_input() {
    for (name, value, message) in [
        ("", "v", "invalid stream auth header name"),
        ("X Token", "v", "invalid stream auth header name"),
        ("X:Token", "v", "invalid stream auth header name"),
        ("X-Token", "a\"b", "invalid stream auth header value"),
        ("X-Token", "a,b", "invalid stream auth header value"),
        ("X-Token", "a#b", "invalid stream auth header value"),
        ("X-Token", "a\nb", "invalid stream auth header value"),
        ("X-Token", "caf\u{e9}", "invalid stream auth header value"),
    ] {
        let err = header_include_content(&vec![(name.to_string(), value.to_string())]).unwrap_err();
        assert_eq!(err, message);
        assert!(value.len() < 3 || !err.contains(value), "the value is never echoed");
    }
    // The first refused header decides, its name checked before its value.
    let err = header_include_content(&vec![
        ("Good".to_string(), "a,b".to_string()),
        ("".to_string(), "v".to_string()),
    ])
    .unwrap_err();
    assert_eq!(err, "invalid stream auth header value");
}

#[test]
fn launch_args_put_user_options_before_the_reasserted_block() {
    let mut l = launch();
    l.extra_args = Some("--input-ipc-server=/evil\n--title=URL".into());
    l.autocrop_mode = Some("manual".into());
    l.autocrop_script = Some("/x/autocrop.lua".into());
    l.inherited_window_state = PlaybackWindowState { fullscreen: Some(true), maximized: None };
    l.screen_name = Some(" DP-1 ".into());
    l.include_path = Some("/run/vela-auth.conf".into());
    l.start = Some("12.5".into());
    let args = play_args(&l);
    assert_eq!(
        args,
        vec![
            "--no-config",
            "--no-ytdl",
            "--vo=gpu-next,gpu",
            "--profile=gpu-hq",
            "--hwdec=auto",
            "--hwdec-codecs=all",
            "--target-colorspace-hint=yes",
            "--hdr-compute-peak=yes",
            "--gpu-api=vulkan",
            "--input-ipc-server=/evil",
            "--title=URL",
            "--script=/x/autocrop.lua",
            "--script-opts-append=autocrop-auto=no",
            "--fullscreen=yes",
            "--screen-name=DP-1",
            "--input-ipc-server=/run/vela.sock",
            "--force-media-title=Heat",
            "--title=Heat",
            "--include=/run/vela-auth.conf",
            "--start=12.5",
            "--",
            "https://plex.example/part/1.mkv",
        ]
    );
}

#[test]
fn launch_args_use_own_config_platform_api_and_neutral_title() {
    let mut l = launch();
    l.use_own_config = true;
    l.platform = GpuPlatform::Windows;
    l.title = "   ".into();
    let args = play_args(&l);
    assert!(!args.iter().any(|a| a == "--no-config"));
    assert!(args.iter().any(|a| a == "--gpu-api=d3d11"));
    assert!(args.iter().any(|a| a == "--force-media-title=Vela"));
    assert_eq!(args[args.len() - 2], "--");
    assert_eq!(args[args.len() - 1], l.url);
}

#[test]
fn mpv_is_looked_for_in_a_fixed_order_and_the_first_usable_wins() {
    let known = vec!["/usr/bin/mpv".to_string(), "/snap/bin/mpv".to_string()];
    let order = mpv_search_order(Some("  /opt/mpv  "), Some("/app/mpv"), &known);
    let shown: Vec<(&str, Probe)> = order.iter().map(|c| (c.command.as_str(), c.probe)).collect();
    assert_eq!(
        shown,
        vec![
            ("/opt/mpv", Probe::FileThatRuns),
            ("/app/mpv", Probe::FileThatRuns),
            ("mpv", Probe::Runs),
            ("/usr/bin/mpv", Probe::FileThatRuns),
            ("/snap/bin/mpv", Probe::FileThatRuns),
        ]
    );
    assert_eq!(mpv_search_order(Some("   "), None, &Vec::new()).len(), 1);
    assert_eq!(
        resolve_mpv(&order, &vec![false, false, false, true, true]).as_deref(),
        Some("/usr/bin/mpv")
    );
    assert_eq!(resolve_mpv(&order, &vec![false; 5]), None);
}

fn plex(base: &str) -> ProgressTarget {
    ProgressTarget::Plex(TrackInfo {
        server_base: base.into(),
        token: "t".into(),
        client_identifier: "c".into(),
        rating_key: "1".into(),
        key: "/library/metadata/1".into(),
        duration_ms: 1000,
    })
}

fn jellyfin(base: &str) -> ProgressTarget {
    ProgressTarget::Jellyfin(JellyfinTrack {
        base_url: base.into(),
        item_id: "i".into(),
        media_source_id: "m".into(),
        play_session_id: None,
        headers: vec![],
    })
}

#[test]
fn degenerate_targets_stay_untracked() {
    assert_eq!(tracking_route(&plex("https://p")), TrackingRoute::Plex);
    assert_eq!(tracking_route(&plex("")), TrackingRoute::Untracked);
    assert_eq!(tracking_route(&jellyfin("http://j")), TrackingRoute::Jellyfin);
    assert_eq!(tracking_route(&jellyfin("")), TrackingRoute::Untracked);
    assert_eq!(tracking_route(&ProgressTarget::Unreported), TrackingRoute::Untracked);
}

#[test]
fn plex_reports_playing_ticks_and_a_final_stop_only_with_a_position() {
    assert!(tracker_reports(TrackingRoute::Plex, TrackerEvent::Started, 5).is_empty());
    assert_eq!(
        tracker_reports(TrackingRoute::Plex, TrackerEvent::Tick, 5_000),
        vec![ServerReport::PlexTimeline { state: TimelineState::Playing, position_ms: 5_000 }]
    );
    assert_eq!(
        tracker_reports(TrackingRoute::Plex, TrackerEvent::Ended, 7_000),
        vec![
            ServerReport::PlexTimeline { state: TimelineState::Stopped, position_ms: 7_000 },
            ServerReport::PlexProgress { position_ms: 7_000 },
        ]
    );
    assert!(tracker_reports(TrackingRoute::Plex, TrackerEvent::Ended, 0).is_empty());
    assert!(tracker_reports(TrackingRoute::Untracked, TrackerEvent::Tick, 9).is_empty());
}

#[test]
fn jellyfin_checks_in_start_progress_and_always_stopped() {
    assert_eq!(
        tracker_reports(TrackingRoute::Jellyfin, TrackerEvent::Started, 2),
        vec![ServerReport::CheckIn { kind: CheckInKind::Start, position_ticks: 20_000, time_update: false }]
    );
    assert_eq!(
        tracker_reports(TrackingRoute::Jellyfin, TrackerEvent::Tick, 3),
        vec![ServerReport::CheckIn { kind: CheckInKind::Progress, position_ticks: 30_000, time_update: true }]
    );
    assert_eq!(
        tracker_reports(TrackingRoute::Jellyfin, TrackerEvent::Ended, 0),
        vec![ServerReport::CheckIn { kind: CheckInKind::Stopped, position_ticks: 0, time_update: false }]
    );
    assert_eq!(
        tracker_reports(TrackingRoute::Jellyfin, TrackerEvent::Tick, u64::MAX),
        vec![ServerReport::CheckIn { kind: CheckInKind::Progress, position_ticks: u64::MAX, time_update: true }]
    );
    assert_eq!(check_in_url("http://j", CheckInKind::Start), "http://j/Sessions/Playing");
    assert_eq!(check_in_url("http://j", CheckInKind::Progress), "http://j/Sessions/Playing/Progress");
    assert_eq!(check_in_url("http://j", CheckInKind::Stopped), "http://j/Sessions/Playing/Stopped");
}
