use vela_core::plex_library::{
    transcode_decision_request, DecisionContainer,
    format_server_origin, link_candidate_needs_probe, ordered_server_candidates,
    parse_resources_stream, person_filter_query, server_identity_matches, PlexLibrary, PlexServer,
};
use vela_core::xml::identity_machine_identifier;

fn server(name: &str, scheme: &str, host: &str, local: bool, relay: bool) -> PlexServer {
    PlexServer {
        name: name.to_string(),
        host: host.to_string(),
        port: 32400,
        scheme: scheme.to_string(),
        uri: format_server_origin(scheme, host, 32400),
        local,
        relay,
        machine_identifier: format!("{name}-id"),
        version: "1.0".to_string(),
    }
}


#[test]
fn resource_parser_preserves_connection_metadata_and_origin() {
    let xml = r#"
        <MediaContainer>
          <Resource name="Home" clientIdentifier="machine-1" productVersion="1.2.3" provides="server">
            <Connection uri="https://192-168-1-2.hash.plex.direct:32400/path?x=1&amp;y=2" local="1" relay="0" />
            <Connection uri="https://remote.hash.plex.direct:32400" local="0" relay="0"></Connection>
            <Connection uri="https://relay.example:443" local="0" relay="1" />
            <Connection uri="http://[2001:db8::1]:32400" local="1" relay="0" />
          </Resource>
          <Resource name="Player" clientIdentifier="client-1" provides="client">
            <Connection uri="https://ignored.example:32400" local="0" relay="0" />
          </Resource>
        </MediaContainer>
    "#;

    let servers = parse_resources_stream(xml).expect("parse resources");

    assert_eq!(servers.len(), 4);
    assert_eq!(servers[0].machine_identifier, "machine-1");
    assert_eq!(servers[0].uri, "https://192-168-1-2.hash.plex.direct:32400");
    assert!(servers[0].local);
    assert!(!servers[0].relay);
    assert_eq!(servers[1].uri, "https://remote.hash.plex.direct:32400");
    assert!(servers[2].relay);
    assert_eq!(servers[3].uri, "http://[2001:db8::1]:32400");
}


#[test]
fn ordered_candidates_require_https_and_exclude_relay_by_default() {
    let servers = vec![
        server("http-local", "http", "192.168.1.2", true, false),
        server("relay", "https", "relay.example", false, true),
        server("remote", "https", "remote.hash.plex.direct", false, false),
        server(
            "local",
            "https",
            "192-168-1-2.hash.plex.direct",
            true,
            false,
        ),
        server("custom", "https", "plex.example.com", false, false),
    ];

    let ordered = ordered_server_candidates(&servers, false);
    let names: Vec<&str> = ordered.iter().map(|s| s.name.as_str()).collect();

    assert_eq!(names, vec!["local", "remote", "custom"]);
}


#[test]
fn ordered_candidates_can_include_relay_last_when_allowed() {
    let servers = vec![
        server("relay", "https", "relay.example", false, true),
        server("remote", "https", "remote.hash.plex.direct", false, false),
    ];

    let ordered = ordered_server_candidates(&servers, true);
    let names: Vec<&str> = ordered.iter().map(|s| s.name.as_str()).collect();

    assert_eq!(names, vec!["remote", "relay"]);
}


#[test]
fn identity_machine_identifier_is_extracted() {
    let xml = r#"<MediaContainer size="0" machineIdentifier="machine-1" />"#;

    assert_eq!(
        identity_machine_identifier(xml).as_deref(),
        Some("machine-1")
    );
}


#[test]
fn link_candidates_require_an_unselected_machine_identifier() {
    let selected = vec!["alpha-id".to_string()];
    let alpha = server("alpha", "https", "alpha.example", false, false);
    let beta = server("beta", "https", "beta.example", false, false);
    let mut unknown = server("unknown", "https", "unknown.example", false, false);
    unknown.machine_identifier.clear();

    assert!(!link_candidate_needs_probe(&alpha, &selected));
    assert!(link_candidate_needs_probe(&beta, &selected));
    assert!(!link_candidate_needs_probe(&unknown, &selected));
}


#[test]
fn reachable_server_identity_must_match_the_discovery_machine() {
    let alpha = server("alpha", "https", "alpha.example", false, false);
    let matching = r#"<MediaContainer machineIdentifier="alpha-id" />"#;
    let other = r#"<MediaContainer machineIdentifier="other-id" />"#;

    assert!(server_identity_matches(&alpha, matching));
    assert!(!server_identity_matches(&alpha, other));
    assert!(!server_identity_matches(&alpha, "<MediaContainer />"));
}

#[test]
fn person_filter_query_builds_filtered_paged_url() {
    let (url, params) = person_filter_query(
        "https://plex.example:32400",
        "3",
        "director",
        "456",
        "1",
        60,
        200,
    );
    assert_eq!(url, "https://plex.example:32400/library/sections/3/all");
    assert!(params.contains(&("director".to_string(), "456".to_string())));
    assert!(params.contains(&("type".to_string(), "1".to_string())));
    assert!(params.contains(&("X-Plex-Container-Start".to_string(), "60".to_string())));
    assert!(params.contains(&("X-Plex-Container-Size".to_string(), "200".to_string())));
    assert!(!params.iter().any(|(k, _)| k.contains("Token")));
}

#[test]
fn server_machine_id_reflects_the_installed_server() {
    let mut lib = PlexLibrary::new("tok".into(), "dev".into());
    assert_eq!(lib.server_machine_id(), None, "no server installed yet");
    lib.set_server(server("alpha", "https", "a.example", false, false));
    assert_eq!(lib.server_machine_id().as_deref(), Some("alpha-id"));
    lib.set_server(server("beta", "https", "b.example", false, false));
    assert_eq!(lib.server_machine_id().as_deref(), Some("beta-id"));
}

#[test]
fn manual_ipv6_server_base_is_bracketed() {
    let mut lib = PlexLibrary::new("token".to_string(), "client".to_string());
    lib.set_server_manual(
        "2001:db8::1".to_string(),
        32400,
        true,
        Some("server".to_string()),
    );

    assert_eq!(
        lib.server_base().as_deref(),
        Some("https://[2001:db8::1]:32400")
    );
}

#[test]
fn a_manual_server_is_named_by_its_host_and_pinned_later() {
    let mut lib = PlexLibrary::new("token".to_string(), "client".to_string());
    lib.set_machine_identifier("ignored".to_string());
    assert_eq!(lib.server_machine_id(), None, "no server: nothing to pin");
    lib.set_server_manual("nas.local".to_string(), 32400, false, None);
    assert_eq!(lib.server_base().as_deref(), Some("http://nas.local:32400"));
    assert_eq!(lib.server_machine_id().as_deref(), Some(""));
    assert!(!lib.server_is_local());
    lib.set_machine_identifier("machine-1".to_string());
    assert_eq!(lib.server_machine_id().as_deref(), Some("machine-1"));
    lib.set_server(server("home", "https", "h.example", true, false));
    assert!(lib.server_is_local());
}

#[test]
fn decision_codes_read_as_conversion_availability() {
    let ok = DecisionContainer {
        general_decision_code: Some(1001),
        general_decision_text: Some("Direct play not available; Conversion OK.".to_string()),
        direct_play_decision_code: Some(3000),
        transcode_decision_code: Some(1001),
        videos: Vec::new(),
    };
    assert!(ok.conversion_ok());
    let refused = DecisionContainer { general_decision_code: Some(2000), ..Default::default() };
    assert!(!refused.conversion_ok(), "a refusal must read as a refusal");
    let edge = DecisionContainer { general_decision_code: Some(1999), ..Default::default() };
    assert!(edge.conversion_ok());
    let below = DecisionContainer { general_decision_code: Some(999), ..Default::default() };
    assert!(!below.conversion_ok());
    assert!(
        !DecisionContainer::default().conversion_ok(),
        "an answer we cannot read must not offer a conversion"
    );
}

#[test]
fn decision_request_offers_direct_play_only_without_a_tier() {
    let (url, q) = transcode_decision_request("https://s:32400", "381215", None, "sess");
    assert_eq!(url, "https://s:32400/video/:/transcode/universal/decision");
    assert_eq!(q[0], ("path".to_string(), "/library/metadata/381215".to_string()));
    assert!(q.contains(&("directPlay".to_string(), "1".to_string())));
    assert!(q.contains(&("session".to_string(), "sess".to_string())));
    assert_eq!(q.len(), 10);
    let tier = vela_core::source::QualityTier {
        id: "720p-4000",
        label: "Convert to 720p HD (High)",
        bitrate_kbps: 4_000,
        width: 1280,
        height: 720,
    };
    let (_, q) = transcode_decision_request("https://s:32400", "381215", Some(&tier), "sess");
    assert!(q.contains(&("directPlay".to_string(), "0".to_string())));
    assert_eq!(q[10], ("maxVideoBitrate".to_string(), "4000".to_string()));
    assert_eq!(q[11], ("videoResolution".to_string(), "1280x720".to_string()));
    assert!(!q.iter().any(|(k, _)| k.contains("Token")));
}

#[test]
fn resource_attributes_are_taken_as_written_and_connections_unescaped() {
    let xml = r#"<MediaContainer>
        <Resource name="Tom &amp; Jerry" clientIdentifier="m&amp;1" provides="server">
          <Connection uri="https://a.plex.direct:32400/?x=1&amp;y=2" local="0" relay="0"/>
        </Resource>
      </MediaContainer>"#;
    let servers = parse_resources_stream(xml).expect("parse resources");
    assert_eq!(servers.len(), 1);
    assert_eq!(servers[0].name, "Tom &amp; Jerry");
    assert_eq!(servers[0].machine_identifier, "m&amp;1");
    assert_eq!(servers[0].uri, "https://a.plex.direct:32400");
}
