use vela_core::config::{AppConfig, SourceConfig};
use vela_core::plex_library::{LibrarySection, PlexLibrary, PlexPlaylist, PlexServer};
use vela_core::source::plex::{
    build_source, is_hdr_range, library_from_config, may_retry_scan_on, plex_sort_key, rebind_voids_keys, rediscovery_pin,
    same_machine_candidates, scan_path, scan_target_ok, should_install, update_source_binding,
    discovery_failure, PlexSource, Probe,
};

fn plex_config(base_url: &str, machine_identifier: Option<&str>) -> SourceConfig {
    SourceConfig {
        id: "plex-configured".to_string(),
        kind: "plex".to_string(),
        name: "Living Room".to_string(),
        base_url: base_url.to_string(),
        access_token: Some("token".to_string()),
        api_key: None,
        user_id: None,
        device_id: Some("client".to_string()),
        machine_identifier: machine_identifier.map(str::to_string),
    }
}


fn server_with_id(machine: &str, host: &str) -> PlexServer {
    PlexServer {
        name: machine.to_string(),
        host: host.to_string(),
        port: 32400,
        scheme: "https".to_string(),
        uri: format!("https://{host}:32400"),
        local: false,
        relay: false,
        machine_identifier: machine.to_string(),
        version: "1.0".to_string(),
    }
}


#[test]
fn binding_persistence_updates_only_the_matching_plex_row() {
    let mut cfg = AppConfig {
        sources: vec![
            plex_config("https://a.example", Some("machine-A")),
            SourceConfig {
                id: "plex-other".to_string(),
                name: "Other".to_string(),
                base_url: "https://b.example".to_string(),
                machine_identifier: Some("machine-B".to_string()),
                ..plex_config("", None)
            },
        ],
        ..Default::default()
    };
    update_source_binding(
        &mut cfg,
        "plex-configured",
        Some("Renamed A"),
        "https://a-new.example:443",
        "machine-A",
    )
    .unwrap();
    assert_eq!(cfg.sources[0].name, "Renamed A");
    assert_eq!(cfg.sources[0].base_url, "https://a-new.example:443");
    assert_eq!(cfg.sources[0].machine_identifier.as_deref(), Some("machine-A"));
    assert_eq!(cfg.sources[1].name, "Other");
    assert_eq!(cfg.sources[1].base_url, "https://b.example");
    assert_eq!(cfg.sources[1].machine_identifier.as_deref(), Some("machine-B"));
}


#[test]
fn only_an_unprovable_rebind_voids_outstanding_keys() {
    // Pinned: discovery was filtered to our own machine, so whatever it
    // installed IS us at a new address. The keys stand (this is the stale-
    // address recovery r6 kept working).
    assert!(!rebind_voids_keys(true, true));
    // Unpinned over an existing server: the machine was never identified, so
    // discovery was free to pick any server on the account. Every key we
    // already handed out may now name a different library.
    assert!(rebind_voids_keys(false, true));
    // First connect: nothing has been issued to void.
    assert!(!rebind_voids_keys(false, false));
}


/// The startup path restores a saved host/port through `set_server_manual`,
/// which stores NO machine identifier. Pinning rediscovery on that empty id
/// would match nothing and leave Plex unable to recover from a stale saved
/// address — browsing and scanning dead until the user relinks.
#[test]
fn an_unknown_machine_does_not_pin_rediscovery() {
    assert_eq!(rediscovery_pin(Some(String::new())), None, "empty = unknown");
    assert_eq!(rediscovery_pin(None), None);
    assert_eq!(
        rediscovery_pin(Some("machine-A".to_string())).as_deref(),
        Some("machine-A")
    );
    // And an unknown machine must not filter the candidate set away.
    let servers = vec![
        server_with_id("machine-A", "a.example"),
        server_with_id("machine-B", "b.example"),
    ];
    assert_eq!(
        same_machine_candidates(servers, rediscovery_pin(Some(String::new())).as_deref()).len(),
        2,
        "an unknown machine discovers freely"
    );
}


/// Two UNPINNED rediscoveries (first connect) racing on a multi-server
/// account can choose different machines; the loser must not overwrite the
/// winner, or ids already handed to the frontend would refer to the wrong
/// server.
#[test]
fn an_unpinned_rediscovery_does_not_clobber_an_installed_server() {
    assert!(
        !should_install(false, Some("machine-A")),
        "another task already installed a server: keep it"
    );
    assert!(
        should_install(false, None),
        "nothing installed yet: this call installs"
    );
    assert!(
        should_install(false, Some("")),
        "a manual endpoint has no machine: still nothing known"
    );
    assert!(
        should_install(true, Some("machine-A")),
        "a pinned rediscovery can only have chosen the same machine"
    );
}


#[test]
fn scan_rediscover_only_considers_the_same_machine() {
    // Two servers on one account. Discovery would hand back both, and
    // choose_reachable_server takes the first REACHABLE one — installing
    // AND persisting it. A caller holding server A's section key must never
    // let B into the candidate set: by the time a post-hoc check could
    // reject it, this source is already repointed at B.
    let servers = vec![
        server_with_id("machine-A", "a.example"),
        server_with_id("machine-B", "b.example"),
    ];
    let pinned = same_machine_candidates(servers.clone(), Some("machine-A"));
    assert_eq!(pinned.len(), 1, "only A's server may be a candidate");
    assert_eq!(pinned[0].machine_identifier, "machine-A");

    // A machine that has vanished from the account yields NO candidate —
    // the retry then fails rather than silently landing elsewhere.
    assert!(same_machine_candidates(servers.clone(), Some("machine-Z")).is_empty());

    // Unpinned (the ordinary rediscover) keeps everything, as before.
    assert_eq!(same_machine_candidates(servers, None).len(), 2);
}


/// The scan must reach the server the KEY came from, not merely a server we
/// can name: a source that drifted between the sections load and the scan
/// would otherwise fire a server-local key at a stranger's same-numbered
/// library and report success.
#[test]
fn a_scan_must_go_to_the_server_its_key_came_from() {
    assert!(scan_target_ok(Some("machine-A"), Some("machine-A")));
    // Drifted since the sections were fetched — the key means nothing here.
    assert!(!scan_target_ok(Some("machine-A"), Some("machine-B")));
    // Either side unknown: we cannot prove the key belongs to this server.
    assert!(!scan_target_ok(None, Some("machine-A")));
    assert!(!scan_target_ok(Some("machine-A"), None));
    assert!(!scan_target_ok(Some(""), Some("")));
}


#[test]
fn scan_retry_never_crosses_to_another_server() {
    // Same machine: the rediscover just re-resolved the SAME server's
    // address (the case the retry exists for — a stale saved URI).
    assert!(may_retry_scan_on(Some("machine-A"), Some("machine-A")));
    // Different machine: discovery fell through to another server on the
    // account. Its section "2" is an UNRELATED library — retrying there
    // would scan a stranger's files and report success for the one the user
    // clicked. This is the guard: making the fn return true unconditionally
    // fails right here.
    assert!(!may_retry_scan_on(Some("machine-A"), Some("machine-B")));
    // Unknown on either side is not a match.
    assert!(!may_retry_scan_on(None, Some("machine-A")));
    assert!(!may_retry_scan_on(Some("machine-A"), None));
    assert!(!may_retry_scan_on(Some(""), Some("")));
}


#[test]
fn scan_path_shape_and_rejections() {
    assert_eq!(scan_path("42").unwrap(), "/library/sections/42/refresh");
    // Non-numeric ids can't reshape the endpoint path or smuggle a query.
    for bad in ["", "abc", "42/refresh", "../7", "42?x=1", "4 2"] {
        assert!(scan_path(bad).is_err(), "{bad:?} must be rejected");
    }
}


#[test]
fn plex_sort_key_translates_only_the_leaf_added_sort() {
    assert_eq!(
        plex_sort_key("episodeAddedAt:desc"),
        "episode.addedAt:desc",
        "the one Vela key that isn't Plex-native must translate"
    );
    // Every other allowed key is Plex-native and passes through verbatim.
    for key in [
        "titleSort:asc",
        "year:desc",
        "addedAt:desc",
        "originallyAvailableAt:desc",
        "rating:desc",
        "lastViewedAt:desc",
    ] {
        assert_eq!(plex_sort_key(key), key, "{key} must pass through");
    }
}


#[test]
fn hdr_range_detection() {
    for s in ["Dolby Vision", "HDR10", "hlg", "SMPTE ST 2084 (PQ)", "DoVi"] {
        assert!(is_hdr_range(s), "{s} should be HDR");
    }
    for s in ["SDR", "Rec. 709", ""] {
        assert!(!is_hdr_range(s), "{s} should not be HDR");
    }
}

#[test]
fn persisted_source_restores_credentials_endpoint_and_machine_pin() {
    let cfg = plex_config("https://plex.example", Some("machine-A"));
    let lib = library_from_config(&cfg).expect("complete Plex config restores");
    assert_eq!(lib.server_base().as_deref(), Some("https://plex.example:443"));
    assert_eq!(lib.server_machine_id().as_deref(), Some("machine-A"));
    assert_eq!(lib.auth_token_clone(), "token");
    assert_eq!(lib.client_identifier_clone(), "client");

    let source = build_source(&cfg).expect("source builds");
    assert_eq!(source.id(), "plex-configured");
    assert_eq!(source.name(), "Living Room");
    assert_eq!(source.kind(), "plex");

    let invalid_pinned = plex_config("http://plex.example", Some("machine-A"));
    assert!(
        library_from_config(&invalid_pinned).is_none(),
        "a known pin may not be discarded into free account discovery"
    );
}

#[test]
fn playlist_descriptor_uses_rating_key_namespace_not_content_path() {
    let source = PlexSource::new(
        "plex-a",
        "Plex A",
        PlexLibrary::new("token".to_string(), "client".to_string()),
    );
    let dto = source.to_playlist(PlexPlaylist {
        rating_key: "2561805".to_string(),
        title: "Background videos".to_string(),
        leaf_count: Some(8),
    });
    assert_eq!(dto.key, "plex-a:2561805");
    assert_eq!(dto.title, "Background videos");
    assert_eq!(dto.item_count, Some(8));
    assert_eq!(dto.source_id, "plex-a");
    assert_eq!(dto.source_name, "Plex A");
}

#[test]
fn unpinned_rows_restore_with_or_without_a_usable_endpoint() {
    // No pin and an http endpoint: the client restores without a server and
    // discovers one later.
    let lib = library_from_config(&plex_config("http://plex.example", None)).expect("restores");
    assert_eq!(lib.server_base(), None);
    // No endpoint at all, no pin: the same.
    let lib = library_from_config(&plex_config("  ", None)).expect("restores");
    assert_eq!(lib.server_machine_id(), None);
    // A pin without any endpoint is a broken row.
    assert!(library_from_config(&plex_config("", Some("machine-A"))).is_none());
    // An explicit port is kept; no pin leaves the machine unknown.
    let lib = library_from_config(&plex_config("https://plex.example:32400/web", None)).unwrap();
    assert_eq!(lib.server_base().as_deref(), Some("https://plex.example:32400"));
    assert_eq!(lib.server_machine_id().as_deref(), Some(""));
}

#[test]
fn incomplete_rows_restore_nothing() {
    let mut cfg = plex_config("https://plex.example", None);
    cfg.kind = "jellyfin".to_string();
    assert!(library_from_config(&cfg).is_none());
    let mut cfg = plex_config("https://plex.example", None);
    cfg.name = "   ".to_string();
    assert!(build_source(&cfg).is_none());
    let mut cfg = plex_config("https://plex.example", None);
    cfg.access_token = Some(String::new());
    assert!(library_from_config(&cfg).is_none());
    let mut cfg = plex_config("https://plex.example", None);
    cfg.device_id = None;
    assert!(library_from_config(&cfg).is_none());
}

fn restored_source(machine: Option<&str>) -> PlexSource {
    let mut lib = PlexLibrary::new("token".to_string(), "client".to_string());
    lib.set_server_manual("a.example".to_string(), 32400, true, Some("A".to_string()));
    if let Some(m) = machine {
        lib.set_machine_identifier(m.to_string());
    }
    PlexSource::new("plex-a", "Plex A", lib)
}

fn discovered(machine: &str, host: &str) -> PlexServer {
    PlexServer {
        name: machine.to_string(),
        host: host.to_string(),
        port: 32400,
        scheme: "https".to_string(),
        uri: String::new(),
        local: false,
        relay: false,
        machine_identifier: machine.to_string(),
        version: String::new(),
    }
}

fn section(key: &str, kind: &str) -> LibrarySection {
    LibrarySection {
        key: key.to_string(),
        title: format!("Library {key}"),
        section_type: kind.to_string(),
        agent: None,
        scanner: None,
    }
}

#[test]
fn reads_spend_one_identity_probe_and_sections_keep_trying() {
    let mut src = restored_source(None);
    assert!(src.claim_identity_probe(Probe::Once));
    assert!(!src.claim_identity_probe(Probe::Once), "a read probes at most once");
    assert!(src.claim_identity_probe(Probe::WhileUnknown));
    assert!(src.claim_identity_probe(Probe::WhileUnknown));
    let mut known = restored_source(Some("machine-A"));
    assert!(!known.claim_identity_probe(Probe::WhileUnknown), "a named server is not probed");
    assert!(!known.claim_identity_probe(Probe::Once));
    assert!(!known.identity_probed);
}

#[test]
fn an_identity_answer_lands_only_on_the_server_it_describes() {
    let mut src = restored_source(None);
    let taken = src.binding;
    assert_eq!(
        src.learn_identity(taken, "machine-A".to_string()),
        Some(("https://a.example:32400".to_string(), "machine-A".to_string()))
    );
    assert_eq!(src.lib.server_machine_id().as_deref(), Some("machine-A"));
    // A second answer does not rename a named server.
    assert_eq!(src.learn_identity(taken, "machine-B".to_string()), None);
    assert_eq!(src.lib.server_machine_id().as_deref(), Some("machine-A"));

    // An unpinned install over the unnamed server voids the keys; the answer
    // about the server it replaced is then dropped.
    let mut src = restored_source(None);
    let taken = src.binding;
    assert!(src.install_discovered(false, discovered("", "b.example")));
    assert_eq!(src.binding, taken + 1);
    assert_eq!(src.learn_identity(taken, "machine-A".to_string()), None);
    assert_eq!(src.lib.server_machine_id().as_deref(), Some(""));
}

#[test]
fn installs_void_keys_only_when_they_may_have_changed_machine() {
    // First connect: nothing issued yet, the binding stays.
    let mut src = PlexSource::new("p", "P", PlexLibrary::new("t".into(), "c".into()));
    assert!(src.install_discovered(false, discovered("machine-A", "a.example")));
    assert_eq!(src.binding, 0);
    // Unpinned discovery never replaces a known machine.
    assert!(!src.install_discovered(false, discovered("machine-B", "b.example")));
    assert_eq!(src.lib.server_machine_id().as_deref(), Some("machine-A"));
    // Pinned: the same machine at a new address keeps the keys.
    assert!(src.install_discovered(true, discovered("machine-A", "a2.example")));
    assert_eq!(src.binding, 0);
    assert_eq!(src.lib.server_base().as_deref(), Some("https://a2.example:32400"));
}

#[test]
fn sections_are_stamped_with_their_server_and_binding() {
    let src = restored_source(Some("machine-A"));
    let listed = vec![section("1", "movie"), section("2", "artist"), section("3", "show")];
    let out = src
        .sections_for(0, Some("machine-A".to_string()), listed.clone())
        .expect("same binding");
    assert_eq!(out.len(), 2, "only video libraries");
    assert_eq!(out[0].key, "plex-a:1");
    assert_eq!(out[1].key, "plex-a:3");
    assert_eq!(out[1].section_type, "show");
    assert_eq!(out[0].provenance.as_deref(), Some("machine-A"));
    assert_eq!(out[0].binding, 0);
    assert_eq!(out[0].source_name, "Plex A");
    assert!(out[0].sort.is_none());
    // Served by an unnamed clone: the source's current name vouches for it.
    let out = src.sections_for(0, Some(String::new()), listed.clone()).unwrap();
    assert_eq!(out[0].provenance.as_deref(), Some("machine-A"));
    // Nobody can name the server: the keys are unprovable.
    let unnamed = restored_source(None);
    let out = unnamed.sections_for(0, None, listed.clone()).unwrap();
    assert_eq!(out[0].provenance, None);
    // Rebound while the list was in flight: not served.
    assert!(src.sections_for(1, Some("machine-A".to_string()), listed).is_none());
}

#[test]
fn discovery_failure_tells_none_found_from_none_reachable() {
    assert_eq!(discovery_failure(&vec![]), "no Plex servers found");
    assert!(discovery_failure(&vec![discovered("m", "h")]).starts_with("no reachable direct HTTPS"));
}
