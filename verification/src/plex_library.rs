//! Plex server records and the rules for choosing among a Plex account's
//! servers: which connections may be tried and in what order, and whether a
//! reachable server is the machine discovery named.

use vstd::prelude::*;
use crate::text::{
    chars_of, concat, contains, contains_str, decimal, decimal_string, lower, lower_chars,
    starts_with, str_eq, string_of, strings_view,
};
use crate::urls::pairs_view;
use crate::xml::XmlEvent;

verus! {

broadcast use vstd::string::group_string_axioms;

/// One connection to one Plex Media Server, as plex.tv lists it.
#[derive(Debug, Clone)]
pub struct PlexServer {
    pub name: String,
    pub host: String,
    pub port: u16,
    pub scheme: String,
    /// The connection's origin as plex.tv gave it; may be empty.
    pub uri: String,
    pub local: bool,
    pub relay: bool,
    pub machine_identifier: String,
    pub version: String,
}

/// The library sections of a server.
#[derive(Debug, Clone)]
pub struct MediaContainer {
    pub directories: Vec<LibrarySection>,
}

/// A directory row (a show, a season, a folder).
#[derive(Debug, Clone)]
pub struct PlexDir {
    pub key: String,
    pub rating_key: Option<String>,
    pub title: String,
    pub media_type: Option<String>,
    pub thumb: Option<String>,
    pub year: Option<u32>,
    pub summary: Option<String>,
    pub added_at: Option<u64>,
    pub last_viewed_at: Option<u64>,
    pub parent_rating_key: Option<String>,
}

/// A server playlist.
#[derive(Debug, Clone, PartialEq, Eq)]
pub struct PlexPlaylist {
    pub rating_key: String,
    pub title: String,
    pub leaf_count: Option<usize>,
}

/// A library section.
#[derive(Debug, Clone)]
pub struct LibrarySection {
    pub key: String,
    pub title: String,
    pub section_type: String,
    pub agent: Option<String>,
    pub scanner: Option<String>,
}

/// An external id of an item (`imdb://...`).
#[derive(Debug, Clone, Default)]
pub struct PlexGuid {
    pub id: String,
}

/// One file part of a media version.
#[derive(Debug, Clone, Default)]
pub struct PlexPart {
    pub id: String,
    pub key: String,
    pub duration: Option<u64>,
    pub file: String,
    pub size: Option<u64>,
    pub container: Option<String>,
}

/// One media version of a listed item; the aspect ratio, which Plex sends
/// as a floating-point number, is not carried.
#[derive(Debug, Clone, Default)]
pub struct PlexMedia {
    pub id: String,
    pub duration: Option<u64>,
    pub bitrate: Option<u32>,
    pub width: Option<u32>,
    pub height: Option<u32>,
    pub video_codec: Option<String>,
    pub audio_codec: Option<String>,
    pub container: Option<String>,
    pub parts: Vec<PlexPart>,
}

/// A listed item (`Video`, `Metadata` or `Directory` row).
#[derive(Debug, Clone, Default)]
pub struct PlexVideo {
    pub key: String,
    pub rating_key: String,
    pub title: String,
    pub title_sort: Option<String>,
    pub summary: Option<String>,
    pub duration: Option<u64>,
    pub view_offset: Option<u64>,
    pub view_count: Option<u64>,
    pub thumb: Option<String>,
    pub grandparent_thumb: Option<String>,
    pub art: Option<String>,
    /// Epoch seconds.
    pub added_at: Option<u64>,
    /// Epoch seconds.
    pub last_viewed_at: Option<u64>,
    pub updated_at: Option<u64>,
    pub media: Vec<PlexMedia>,
    pub year: Option<u32>,
    pub media_type: Option<String>,
    pub index: Option<u32>,
    pub parent_index: Option<u32>,
    pub grandparent_title: Option<String>,
    pub parent_title: Option<String>,
    pub parent_rating_key: Option<String>,
    pub grandparent_rating_key: Option<String>,
    pub guids: Vec<PlexGuid>,
}

/// A skippable range as Plex publishes it.
#[derive(Debug, Clone, Default)]
pub struct PlexMarker {
    pub marker_type: Option<String>,
    pub start_time_offset: Option<String>,
    pub end_time_offset: Option<String>,
}

/// A genre, director, writer or country tag.
#[derive(Debug, Clone, Default)]
pub struct PlexTag {
    pub tag: String,
    pub id: Option<String>,
}

/// A cast member.
#[derive(Debug, Clone, Default)]
pub struct PlexRole {
    pub tag: String,
    pub id: Option<String>,
    pub role: Option<String>,
    pub thumb: Option<String>,
}

/// One media version of an item's detail.
#[derive(Debug, Clone, Default)]
pub struct PlexDetailMedia {
    pub id: String,
    pub video_resolution: Option<String>,
    pub bitrate: Option<u64>,
    pub width: Option<u32>,
    pub height: Option<u32>,
    pub video_codec: Option<String>,
    pub audio_codec: Option<String>,
    pub container: Option<String>,
    pub video_dynamic_range: Option<String>,
    pub video_profile: Option<String>,
    pub parts: Vec<PlexDetailPart>,
}

/// The server's answer to "can this copy be converted": its decision codes
/// and the item the conversion would produce.
#[derive(Debug, Clone, Default)]
pub struct DecisionContainer {
    pub general_decision_code: Option<u32>,
    pub general_decision_text: Option<String>,
    pub direct_play_decision_code: Option<u32>,
    pub transcode_decision_code: Option<u32>,
    pub videos: Vec<PlexDetail>,
}

impl DecisionContainer {
    /// Plex's 1xxx codes are the success family; 2xxx and above report a
    /// refusal, and no code at all is never read as permission.
    pub fn conversion_ok(&self) -> (r: bool)
        ensures
            r == (self.general_decision_code matches Some(c) && 1000 <= c < 2000),
    {
        match self.general_decision_code {
            Some(c) => 1000 <= c && c < 2000,
            None => false,
        }
    }
}

/// The decision request for an item: direct play is offered only when no
/// conversion tier is asked for; a tier bounds the bitrate and the picture.
pub open spec fn decision_pairs(
    rating_key: Seq<char>,
    tier: Option<crate::source::QualityTier>,
    session: Seq<char>,
) -> Seq<(Seq<char>, Seq<char>)> {
    seq![
        ("path"@, "/library/metadata/"@ + rating_key),
        ("mediaIndex"@, "0"@),
        ("partIndex"@, "0"@),
        ("protocol"@, "hls"@),
        ("directPlay"@, if tier is Some { "0"@ } else { "1"@ }),
        ("directStream"@, "1"@),
        ("fastSeek"@, "1"@),
        ("copyts"@, "1"@),
        ("offset"@, "0"@),
        ("session"@, session),
    ] + match tier {
        Some(t) => seq![
            ("maxVideoBitrate"@, decimal(t.bitrate_kbps as nat)),
            ("videoResolution"@, decimal(t.width as nat) + "x"@ + decimal(t.height as nat)),
        ],
        None => Seq::empty(),
    }
}

/// Where and with what query the server is asked whether an item can play
/// directly or be converted to a tier; the credential travels as a header.
pub fn transcode_decision_request(
    base: &str,
    rating_key: &str,
    tier: Option<&crate::source::QualityTier>,
    session: &str,
) -> (r: (String, Vec<(String, String)>))
    ensures
        r.0@ == base@ + "/video/:/transcode/universal/decision"@,
        pairs_view(r.1@) == decision_pairs(
            rating_key@,
            match tier {
                Some(t) => Some(*t),
                None => None,
            },
            session@,
        ),
{
    let url = concat(base, "/video/:/transcode/universal/decision");
    let mut query: Vec<(String, String)> = Vec::new();
    query.push(("path".to_string(), concat("/library/metadata/", rating_key)));
    query.push(("mediaIndex".to_string(), "0".to_string()));
    query.push(("partIndex".to_string(), "0".to_string()));
    query.push(("protocol".to_string(), "hls".to_string()));
    let direct_play = match tier {
        Some(_) => "0".to_string(),
        None => "1".to_string(),
    };
    query.push(("directPlay".to_string(), direct_play));
    query.push(("directStream".to_string(), "1".to_string()));
    query.push(("fastSeek".to_string(), "1".to_string()));
    query.push(("copyts".to_string(), "1".to_string()));
    query.push(("offset".to_string(), "0".to_string()));
    query.push(("session".to_string(), session.to_string()));
    match tier {
        Some(t) => {
            query.push(("maxVideoBitrate".to_string(), decimal_string(t.bitrate_kbps as u64)));
            let w = concat(decimal_string(t.width as u64).as_str(), "x");
            let box_ = concat(w.as_str(), decimal_string(t.height as u64).as_str());
            query.push(("videoResolution".to_string(), box_));
        },
        None => {},
    }
    assert(pairs_view(query@) =~= decision_pairs(
        rating_key@,
        match tier {
            Some(t) => Some(*t),
            None => None,
        },
        session@,
    ));
    (url, query)
}

/// An item's full detail as the server returns it; the two ratings, which
/// Plex sends as floating-point numbers, are not carried.
#[derive(Debug, Clone, Default)]
pub struct PlexDetail {
    pub key: String,
    pub rating_key: String,
    pub title: String,
    pub summary: Option<String>,
    pub tagline: Option<String>,
    pub year: Option<u32>,
    pub duration: Option<u64>,
    pub view_offset: Option<u64>,
    pub view_count: Option<u64>,
    pub media_type: Option<String>,
    pub thumb: Option<String>,
    pub grandparent_thumb: Option<String>,
    pub art: Option<String>,
    pub content_rating: Option<String>,
    pub studio: Option<String>,
    pub originally_available_at: Option<String>,
    pub index: Option<u32>,
    pub parent_index: Option<u32>,
    pub grandparent_title: Option<String>,
    pub parent_title: Option<String>,
    pub parent_rating_key: Option<String>,
    pub grandparent_rating_key: Option<String>,
    pub genres: Vec<PlexTag>,
    pub directors: Vec<PlexTag>,
    pub writers: Vec<PlexTag>,
    pub countries: Vec<PlexTag>,
    pub roles: Vec<PlexRole>,
    pub media: Vec<PlexDetailMedia>,
    pub markers: Vec<PlexMarker>,
}

/// One part of a detailed media version.
#[derive(Debug, Clone, Default)]
pub struct PlexDetailPart {
    pub id: String,
    pub key: String,
    pub streams: Vec<PlexStream>,
}

/// One stream of a part.
#[derive(Debug, Clone, Default)]
pub struct PlexStream {
    pub stream_type: Option<u8>,
    pub codec: Option<String>,
    pub language: Option<String>,
    pub channels: Option<u32>,
    pub display_title: Option<String>,
}

// ---- choosing a connection ------------------------------------------------------

/// Where a connection ranks, lower first: only `https`; relays last and only
/// when allowed; then plex.direct before custom hosts, local before remote.
pub open spec fn candidate_priority(s: PlexServer, allow_relay: bool) -> Option<int> {
    if s.scheme@ != "https"@ {
        None
    } else if s.relay {
        if allow_relay {
            Some(40)
        } else {
            None
        }
    } else {
        let direct = contains(s.host@, ".plex.direct"@);
        Some(
            if direct && s.local {
                0
            } else if direct {
                10
            } else if s.local {
                20
            } else {
                30
            },
        )
    }
}

pub fn server_candidate_priority(server: &PlexServer, allow_relay: bool) -> (r: Option<u8>)
    ensures
        match candidate_priority(*server, allow_relay) {
            Some(p) => r matches Some(q) && q as int == p,
            None => r is None,
        },
{
    if !str_eq(server.scheme.as_str(), "https") {
        return None;
    }
    if server.relay {
        return if allow_relay {
            Some(40)
        } else {
            None
        };
    }
    let direct = contains_str(server.host.as_str(), ".plex.direct");
    Some(
        if direct && server.local {
            0
        } else if direct {
            10
        } else if server.local {
            20
        } else {
            30
        },
    )
}

/// Where a stable insertion by priority puts a connection.
pub open spec fn priority_insert_at(t: Seq<(int, PlexServer)>, p: int) -> int
    decreases t.len(),
{
    if t.len() == 0 {
        0
    } else if t[0].0 > p {
        0
    } else {
        1 + priority_insert_at(t.drop_first(), p)
    }
}

/// The usable connections with their priorities, stably sorted by priority
/// (listing order breaks ties).
pub open spec fn ranked_servers(s: Seq<PlexServer>, allow_relay: bool) -> Seq<(int, PlexServer)>
    decreases s.len(),
{
    if s.len() == 0 {
        Seq::empty()
    } else {
        let t = ranked_servers(s.drop_last(), allow_relay);
        match candidate_priority(s.last(), allow_relay) {
            Some(p) => t.insert(priority_insert_at(t, p), (p, s.last())),
            None => t,
        }
    }
}

/// The connections to try, best first.
pub open spec fn ordered_candidates(s: Seq<PlexServer>, allow_relay: bool) -> Seq<PlexServer> {
    ranked_servers(s, allow_relay).map_values(|e: (int, PlexServer)| e.1)
}

fn copy_server(s: &PlexServer) -> (r: PlexServer)
    ensures
        r == *s,
{
    PlexServer {
        name: s.name.clone(),
        host: s.host.clone(),
        port: s.port,
        scheme: s.scheme.clone(),
        uri: s.uri.clone(),
        local: s.local,
        relay: s.relay,
        machine_identifier: s.machine_identifier.clone(),
        version: s.version.clone(),
    }
}

/// The connections to try, best first: `https` only, relays last and only
/// when allowed, plex.direct before custom hosts and local before remote,
/// listing order within a rank.
pub fn ordered_server_candidates(servers: &Vec<PlexServer>, allow_relay: bool) -> (r: Vec<PlexServer>)
    ensures
        r@ == ordered_candidates(servers@, allow_relay),
{
    let ghost s = servers@;
    let mut ranked: Vec<(u8, PlexServer)> = Vec::new();
    let mut j: usize = 0;
    while j < servers.len()
        invariant
            j <= servers.len(),
            s == servers@,
            ranked@.map_values(|e: (u8, PlexServer)| (e.0 as int, e.1)) == ranked_servers(
                s.take(j as int),
                allow_relay,
            ),
        decreases servers.len() - j,
    {
        let ghost t = ranked@.map_values(|e: (u8, PlexServer)| (e.0 as int, e.1));
        proof {
            assert(s.take(j + 1).drop_last() =~= s.take(j as int));
            assert(s.take(j + 1).last() == s[j as int]);
        }
        match server_candidate_priority(&servers[j], allow_relay) {
            Some(p) => {
                let mut at: usize = 0;
                assert(t.skip(0) =~= t);
                while at < ranked.len()
                    invariant_except_break
                        at <= ranked.len(),
                        t == ranked@.map_values(|e: (u8, PlexServer)| (e.0 as int, e.1)),
                        priority_insert_at(t, p as int) == at + priority_insert_at(
                            t.skip(at as int),
                            p as int,
                        ),
                    ensures
                        at <= ranked.len(),
                        priority_insert_at(t, p as int) == at,
                    decreases ranked.len() - at,
                {
                    assert(t.skip(at as int)[0] == (ranked@[at as int].0 as int, ranked@[at as int].1));
                    if ranked[at].0 > p {
                        break ;
                    }
                    assert(t.skip(at as int).drop_first() =~= t.skip(at + 1));
                    at += 1;
                }
                proof {
                    if at == ranked.len() {
                        assert(t.skip(at as int).len() == 0);
                    }
                }
                let ghost sv = s[j as int];
                ranked.insert(at, (p, copy_server(&servers[j])));
                assert(ranked@.map_values(|e: (u8, PlexServer)| (e.0 as int, e.1)) =~= t.insert(
                    at as int,
                    (p as int, sv),
                ));
            },
            None => {},
        }
        j += 1;
    }
    assert(s.take(j as int) =~= s);
    let ghost rv = ranked@.map_values(|e: (u8, PlexServer)| (e.0 as int, e.1));
    let mut out: Vec<PlexServer> = Vec::new();
    let mut k: usize = 0;
    while k < ranked.len()
        invariant
            k <= ranked.len(),
            rv == ranked@.map_values(|e: (u8, PlexServer)| (e.0 as int, e.1)),
            out@ == rv.take(k as int).map_values(|e: (int, PlexServer)| e.1),
        decreases ranked.len() - k,
    {
        out.push(copy_server(&ranked[k].1));
        assert(rv.take(k + 1).map_values(|e: (int, PlexServer)| e.1) =~= rv.take(k as int).map_values(
            |e: (int, PlexServer)| e.1,
        ).push(ranked@[k as int].1));
        k += 1;
    }
    assert(rv.take(k as int) =~= rv);
    out
}

/// A candidate from linking is worth probing only when it names a machine
/// that is not selected yet.
pub fn link_candidate_needs_probe(server: &PlexServer, selected_machines: &Vec<String>) -> (r: bool)
    ensures
        r == (server.machine_identifier@.len() > 0 && !strings_view(selected_machines@).contains(
            server.machine_identifier@,
        )),
{
    if server.machine_identifier.as_str().is_empty() {
        return false;
    }
    let ghost sv = strings_view(selected_machines@);
    let mut i: usize = 0;
    while i < selected_machines.len()
        invariant
            i <= selected_machines.len(),
            sv == strings_view(selected_machines@),
            forall|k: int| 0 <= k < i ==> sv[k] != server.machine_identifier@,
        decreases selected_machines.len() - i,
    {
        assert(sv[i as int] == selected_machines@[i as int]@);
        if str_eq(selected_machines[i].as_str(), server.machine_identifier.as_str()) {
            return false;
        }
        i += 1;
    }
    true
}

/// Plex's boolean attribute spellings, in any letter case.
pub open spec fn truthy(v: Seq<char>) -> bool {
    let l = lower(v);
    l == "1"@ || l == "true"@ || l == "yes"@ || l == "y"@
}

pub fn attr_bool(value: &str) -> (r: bool)
    ensures
        r == truthy(value@),
{
    let l = string_of(lower_chars(&chars_of(value)).as_slice());
    let s = l.as_str();
    str_eq(s, "1") || str_eq(s, "true") || str_eq(s, "yes") || str_eq(s, "y")
}

/// `scheme://host:port`, an IPv6 host in brackets.
pub open spec fn origin_text(scheme: Seq<char>, host: Seq<char>, port: u16) -> Seq<char> {
    let h = if host.contains(':') && !starts_with(host, "["@) {
        "["@ + host + "]"@
    } else {
        host
    };
    scheme + "://"@ + h + ":"@ + decimal(port as nat)
}

pub fn format_server_origin(scheme: &str, host: &str, port: u16) -> (r: String)
    ensures
        r@ == origin_text(scheme@, host@, port),
{
    let h = if crate::text::contains_char(host, ':') && !crate::text::starts_with_str(host, "[") {
        let a = concat("[", host);
        concat(a.as_str(), "]")
    } else {
        host.to_string()
    };
    let a = concat(scheme, "://");
    let b = concat(a.as_str(), h.as_str());
    let c = concat(b.as_str(), ":");
    concat(c.as_str(), decimal_string(port as u64).as_str())
}

/// The origin to talk to: the listed URI, else one built from the parts.
pub open spec fn origin_of(server: PlexServer) -> Seq<char> {
    if server.uri@.len() == 0 {
        origin_text(server.scheme@, server.host@, server.port)
    } else {
        server.uri@
    }
}

/// The origin to talk to: the listed URI, else one built from the parts.
pub fn server_origin(server: &PlexServer) -> (r: String)
    ensures
        r@ == origin_of(*server),
{
    if server.uri.as_str().is_empty() {
        format_server_origin(server.scheme.as_str(), server.host.as_str(), server.port)
    } else {
        server.uri.clone()
    }
}

/// The section listing filtered to one person, paged; the credential never
/// rides in the query.
pub fn person_filter_query(
    base: &str,
    section_key: &str,
    filter: &str,
    tag_id: &str,
    type_filter: &str,
    start: usize,
    size: usize,
) -> (r: (String, Vec<(String, String)>))
    ensures
        r.0@ == base@ + "/library/sections/"@ + section_key@ + "/all"@,
        pairs_view(r.1@) == seq![
            ("includeGuids"@, "1"@),
            ("type"@, type_filter@),
            (filter@, tag_id@),
            ("X-Plex-Container-Start"@, decimal(start as nat)),
            ("X-Plex-Container-Size"@, decimal(size as nat)),
        ],
{
    let a = concat(base, "/library/sections/");
    let b = concat(a.as_str(), section_key);
    let url = concat(b.as_str(), "/all");
    let mut params: Vec<(String, String)> = Vec::new();
    params.push(("includeGuids".to_string(), "1".to_string()));
    params.push(("type".to_string(), type_filter.to_string()));
    params.push((filter.to_string(), tag_id.to_string()));
    params.push(("X-Plex-Container-Start".to_string(), decimal_string(start as u64)));
    params.push(("X-Plex-Container-Size".to_string(), decimal_string(size as u64)));
    assert(pairs_view(params@) =~= seq![
        ("includeGuids"@, "1"@),
        ("type"@, type_filter@),
        (filter@, tag_id@),
        ("X-Plex-Container-Start"@, decimal(start as nat)),
        ("X-Plex-Container-Size"@, decimal(size as nat)),
    ]);
    (url, params)
}

/// A reachable server is the machine discovery named when its identity
/// document, read into events, declares that machine identifier.
pub fn identity_matches_events(server: &PlexServer, evs: &Vec<XmlEvent>) -> (r: bool)
    ensures
        r == (crate::xml::first_attribute_named(evs@, "machineIdentifier"@) == Some(
            server.machine_identifier@,
        )),
{
    match crate::xml::attribute_in(evs, "machineIdentifier") {
        Some(id) => str_eq(id.as_str(), server.machine_identifier.as_str()),
        None => false,
    }
}

/// Whether a reachable server's identity document names the machine
/// discovery chose.
pub fn server_identity_matches(server: &PlexServer, identity_xml: &str) -> (r: bool)
    ensures
        r == (crate::xml::first_attribute_named(
            crate::xml::document_events(identity_xml),
            "machineIdentifier"@,
        ) == Some(server.machine_identifier@)),
{
    let evs = crate::xml::read_events(identity_xml);
    identity_matches_events(server, &evs)
}

// ---- the account's resource list -----------------------------------------

/// The abstract content of a [`PlexServer`].
pub struct ServerView {
    pub name: Seq<char>,
    pub host: Seq<char>,
    pub port: u16,
    pub scheme: Seq<char>,
    pub uri: Seq<char>,
    pub local: bool,
    pub relay: bool,
    pub machine_identifier: Seq<char>,
    pub version: Seq<char>,
}

pub open spec fn server_view(s: PlexServer) -> ServerView {
    ServerView {
        name: s.name@,
        host: s.host@,
        port: s.port,
        scheme: s.scheme@,
        uri: s.uri@,
        local: s.local,
        relay: s.relay,
        machine_identifier: s.machine_identifier@,
        version: s.version@,
    }
}

pub open spec fn servers_view(v: Seq<PlexServer>) -> Seq<ServerView> {
    v.map_values(|s: PlexServer| server_view(s))
}

/// What is known of the `<Resource>` being read.
pub struct ResourceScan {
    pub name: Option<Seq<char>>,
    pub id: Option<Seq<char>>,
    pub version: Option<Seq<char>>,
    pub provides_server: bool,
    pub public_address: Option<Seq<char>>,
    /// A connection of this resource produced a server.
    pub pushed: bool,
}

pub open spec fn scan_start() -> ResourceScan {
    ResourceScan {
        name: None,
        id: None,
        version: None,
        provides_server: false,
        public_address: None,
        pushed: false,
    }
}

pub open spec fn is_resource_tag(n: Seq<char>) -> bool {
    n == "resource"@ || n == "Resource"@
}

pub open spec fn is_connection_tag(n: Seq<char>) -> bool {
    n == "connection"@ || n == "Connection"@
}

/// A `<Resource>` start tag resets what is known to its attributes, taken
/// as written.
pub open spec fn resource_opened(attrs: Seq<(String, String)>) -> ResourceScan {
    ResourceScan {
        name: crate::xml::attr_last(attrs, "name"@),
        id: crate::xml::attr_last(attrs, "clientIdentifier"@),
        version: crate::xml::attr_last(attrs, "productVersion"@),
        provides_server: crate::xml::attr_any_contains(attrs, "provides"@, "server"@),
        public_address: crate::xml::attr_last(attrs, "publicAddress"@),
        pushed: false,
    }
}

pub open spec fn or_empty(o: Option<Seq<char>>) -> Seq<char> {
    match o {
        Some(v) => v,
        None => Seq::empty(),
    }
}

pub open spec fn flag_attr(attrs: Seq<(String, String)>, name: Seq<char>) -> bool {
    match crate::xml::attr_last(attrs, name) {
        Some(v) => truthy(v),
        None => false,
    }
}

/// The server a `<Connection>` describes: its URI must parse; the host
/// defaults to `localhost` and the port to 32400; the origin drops path,
/// query, fragment and trailing `/`.
pub open spec fn connection_server(
    attrs: Seq<(String, String)>,
    name: Seq<char>,
    id: Seq<char>,
    version: Seq<char>,
) -> Option<ServerView> {
    match crate::xml::attr_last(attrs, "uri"@) {
        None => None,
        Some(u) => match crate::urls::url_connection(u) {
            None => None,
            Some((scheme, host, port, origin)) => Some(
                ServerView {
                    name,
                    host: match host {
                        Some(h) => h,
                        None => "localhost"@,
                    },
                    port: match port {
                        Some(p) => p,
                        None => 32400u16,
                    },
                    scheme,
                    uri: crate::text::trim_end_char(origin, '/'),
                    local: flag_attr(attrs, "local"@),
                    relay: flag_attr(attrs, "relay"@),
                    machine_identifier: id,
                    version,
                },
            ),
        },
    }
}

/// The fallback for a server resource without a usable connection: its
/// public address over https on the default port.
pub open spec fn public_address_server(name: Seq<char>, id: Seq<char>, version: Seq<char>, host: Seq<char>) -> ServerView {
    ServerView {
        name,
        host,
        port: 32400u16,
        scheme: "https"@,
        uri: origin_text("https"@, host, 32400u16),
        local: false,
        relay: false,
        machine_identifier: id,
        version,
    }
}

/// One event: a resource start tag resets the scan; a connection of a
/// named server resource adds its server; the end of a resource that added
/// none falls back to its public address.
pub open spec fn scan_step(st: ResourceScan, out: Seq<ServerView>, ev: XmlEvent) -> (ResourceScan, Seq<ServerView>) {
    match ev {
        XmlEvent::Open { name, attributes, raw, empty, .. } => if !empty && is_resource_tag(name@) {
            (resource_opened(raw@), out)
        } else if is_connection_tag(name@) && st.provides_server && st.name is Some
            && st.id is Some {
            match connection_server(
                attributes@,
                st.name.unwrap(),
                st.id.unwrap(),
                or_empty(st.version),
            ) {
                Some(sv) => (ResourceScan { pushed: true, ..st }, out.push(sv)),
                None => (st, out),
            }
        } else {
            (st, out)
        },
        XmlEvent::Close { name } => if is_resource_tag(name@) && !st.pushed && st.name is Some
            && st.id is Some && st.public_address is Some {
            (
                st,
                out.push(
                    public_address_server(
                        st.name.unwrap(),
                        st.id.unwrap(),
                        or_empty(st.version),
                        st.public_address.unwrap(),
                    ),
                ),
            )
        } else {
            (st, out)
        },
        _ => (st, out),
    }
}

/// The scan from event `i` on: it stops at the end of input and fails at
/// the first malformed spot.
pub open spec fn scan_from(evs: Seq<XmlEvent>, i: int, st: ResourceScan, out: Seq<ServerView>) -> Result<
    Seq<ServerView>,
    Seq<char>,
>
    decreases evs.len() - i,
{
    if i < 0 || i >= evs.len() {
        Ok(out)
    } else {
        match evs[i] {
            XmlEvent::End => Ok(out),
            XmlEvent::Invalid(m) => Err("XML parse error: "@ + m@),
            _ => {
                let (s2, o2) = scan_step(st, out, evs[i]);
                scan_from(evs, i + 1, s2, o2)
            },
        }
    }
}

/// The servers a plex.tv resource list names, in document order.
pub open spec fn resources_of(evs: Seq<XmlEvent>) -> Result<Seq<ServerView>, Seq<char>> {
    scan_from(evs, 0, scan_start(), Seq::empty())
}

fn connection_server_of(
    attrs: &Vec<(String, String)>,
    name: &str,
    id: &str,
    version: &str,
) -> (r: Option<PlexServer>)
    ensures
        match r {
            Some(s) => connection_server(attrs@, name@, id@, version@) == Some(server_view(s)),
            None => connection_server(attrs@, name@, id@, version@) is None,
        },
{
    let uri = match crate::xml::last_attribute_of(attrs, "uri") {
        Some(u) => u,
        None => return None,
    };
    let (scheme, host, port, origin) = match crate::urls::parse_connection(uri.as_str()) {
        Some(t) => t,
        None => return None,
    };
    let host = match host {
        Some(h) => h,
        None => "localhost".to_string(),
    };
    let port: u16 = match port {
        Some(p) => p,
        None => 32400,
    };
    let local = match crate::xml::last_attribute_of(attrs, "local") {
        Some(v) => attr_bool(v.as_str()),
        None => false,
    };
    let relay = match crate::xml::last_attribute_of(attrs, "relay") {
        Some(v) => attr_bool(v.as_str()),
        None => false,
    };
    Some(
        PlexServer {
            name: name.to_string(),
            host,
            port,
            scheme,
            uri: crate::text::trim_end_char_string(origin.as_str(), '/'),
            local,
            relay,
            machine_identifier: id.to_string(),
            version: version.to_string(),
        },
    )
}

fn opt_str_or_empty(o: &Option<String>) -> (r: &str)
    ensures
        r@ == or_empty(crate::text::opt_view(*o)),
{
    match o {
        Some(s) => s.as_str(),
        None => {
            proof {
                reveal_strlit("");
            }
            ""
        },
    }
}

/// The servers of a resource list already read into events.
pub fn resources_from_events(evs: &Vec<XmlEvent>) -> (r: Result<Vec<PlexServer>, String>)
    ensures
        match resources_of(evs@) {
            Ok(sv) => r matches Ok(v) && servers_view(v@) == sv,
            Err(m) => r matches Err(e) && e@ == m,
        },
{
    let mut out: Vec<PlexServer> = Vec::new();
    let mut cur_name: Option<String> = None;
    let mut cur_id: Option<String> = None;
    let mut cur_ver: Option<String> = None;
    let mut cur_provides_server = false;
    let mut cur_public_addr: Option<String> = None;
    let mut pushed = false;
    let mut i: usize = 0;
    assert(servers_view(out@) =~= Seq::<ServerView>::empty());
    while i < evs.len()
        invariant
            i <= evs.len(),
            resources_of(evs@) == scan_from(
                evs@,
                i as int,
                ResourceScan {
                    name: crate::text::opt_view(cur_name),
                    id: crate::text::opt_view(cur_id),
                    version: crate::text::opt_view(cur_ver),
                    provides_server: cur_provides_server,
                    public_address: crate::text::opt_view(cur_public_addr),
                    pushed,
                },
                servers_view(out@),
            ),
        decreases evs.len() - i,
    {
        let ghost before = servers_view(out@);
        match &evs[i] {
            XmlEvent::End => {
                return Ok(out);
            },
            XmlEvent::Invalid(m) => {
                return Err(concat("XML parse error: ", m.as_str()));
            },
            XmlEvent::Open { name, attributes, raw, empty, .. } => {
                if !*empty && (str_eq(name.as_str(), "resource") || str_eq(
                    name.as_str(),
                    "Resource",
                )) {
                    cur_name = crate::xml::last_attribute_of(raw, "name");
                    cur_id = crate::xml::last_attribute_of(raw, "clientIdentifier");
                    cur_ver = crate::xml::last_attribute_of(raw, "productVersion");
                    cur_provides_server = crate::xml::any_attribute_contains(
                        raw,
                        "provides",
                        "server",
                    );
                    cur_public_addr = crate::xml::last_attribute_of(raw, "publicAddress");
                    pushed = false;
                } else if (str_eq(name.as_str(), "connection") || str_eq(
                    name.as_str(),
                    "Connection",
                )) && cur_provides_server && cur_name.is_some() && cur_id.is_some() {
                    let n = opt_str_or_empty(&cur_name);
                    let d = opt_str_or_empty(&cur_id);
                    let v = opt_str_or_empty(&cur_ver);
                    match connection_server_of(attributes, n, d, v) {
                        Some(server) => {
                            out.push(server);
                            pushed = true;
                            assert(servers_view(out@) =~= before.push(server_view(server)));
                        },
                        None => {},
                    }
                }
            },
            XmlEvent::Close { name } => {
                if (str_eq(name.as_str(), "resource") || str_eq(name.as_str(), "Resource"))
                    && !pushed && cur_name.is_some() && cur_id.is_some()
                    && cur_public_addr.is_some() {
                    let host = opt_str_or_empty(&cur_public_addr);
                    let server = PlexServer {
                        name: opt_str_or_empty(&cur_name).to_string(),
                        host: host.to_string(),
                        port: 32400,
                        scheme: "https".to_string(),
                        uri: format_server_origin("https", host, 32400),
                        local: false,
                        relay: false,
                        machine_identifier: opt_str_or_empty(&cur_id).to_string(),
                        version: opt_str_or_empty(&cur_ver).to_string(),
                    };
                    out.push(server);
                    assert(servers_view(out@) =~= before.push(server_view(server)));
                }
            },
            XmlEvent::Other => {},
        }
        i += 1;
    }
    Ok(out)
}

/// The servers of a plex.tv resource list document.
pub fn parse_resources_stream(xml: &str) -> (r: Result<Vec<PlexServer>, String>)
    ensures
        match resources_of(crate::xml::document_events(xml)) {
            Ok(sv) => r matches Ok(v) && servers_view(v@) == sv,
            Err(m) => r matches Err(e) && e@ == m,
        },
{
    let evs = crate::xml::read_events(xml);
    resources_from_events(&evs)
}

// ---- listing rows in document order -----------------------------------------

/// A directory row as a listed item: its key stands in for a missing
/// rating key, and an untyped row is a `directory`.
pub fn video_from_dir(d: PlexDir) -> (r: PlexVideo)
    ensures
        r.key == d.key,
        r.rating_key == match d.rating_key {
            Some(k) => k,
            None => d.key,
        },
        r.title == d.title,
        r.summary == d.summary,
        r.thumb == d.thumb,
        r.added_at == d.added_at,
        r.last_viewed_at == d.last_viewed_at,
        r.year == d.year,
        crate::text::opt_view(r.media_type) == match d.media_type {
            Some(t) => Some(t@),
            None => Some("directory"@),
        },
        r.parent_rating_key == d.parent_rating_key,
        r.title_sort is None && r.duration is None && r.view_offset is None,
        r.view_count is None && r.grandparent_thumb is None && r.art is None,
        r.updated_at is None && r.media@.len() == 0 && r.index is None,
        r.parent_index is None && r.grandparent_title is None && r.parent_title is None,
        r.grandparent_rating_key is None && r.guids@.len() == 0,
{
    let key = d.key.clone();
    let rating_key = match d.rating_key {
        Some(k) => k,
        None => d.key,
    };
    let media_type = match d.media_type {
        Some(t) => Some(t),
        None => Some("directory".to_string()),
    };
    PlexVideo {
        key,
        rating_key,
        title: d.title,
        title_sort: None,
        summary: d.summary,
        duration: None,
        view_offset: None,
        view_count: None,
        thumb: d.thumb,
        grandparent_thumb: None,
        art: None,
        added_at: d.added_at,
        last_viewed_at: d.last_viewed_at,
        updated_at: None,
        media: Vec::new(),
        year: d.year,
        media_type,
        index: None,
        parent_index: None,
        grandparent_title: None,
        parent_title: None,
        parent_rating_key: d.parent_rating_key,
        grandparent_rating_key: None,
        guids: Vec::new(),
    }
}

pub open spec fn is_row_tag(n: Seq<char>) -> bool {
    n == "Video"@ || n == "Metadata"@ || n == "Directory"@
}

/// The id a row is found by: its rating key, else its key.
pub open spec fn row_id(attrs: Seq<(String, String)>) -> Option<Seq<char>> {
    match crate::xml::attr_last(attrs, "ratingKey"@) {
        Some(k) => Some(k),
        None => crate::xml::attr_last(attrs, "key"@),
    }
}

/// The ids of the `Video`, `Metadata` and `Directory` rows in document
/// order, as written, up to the end of input or the first malformed spot.
pub open spec fn row_ids(evs: Seq<XmlEvent>) -> Seq<Seq<char>>
    decreases evs.len(),
{
    if evs.len() == 0 {
        Seq::empty()
    } else {
        match evs[0] {
            XmlEvent::End => Seq::empty(),
            XmlEvent::Invalid(_) => Seq::empty(),
            XmlEvent::Open { name, raw, .. } => {
                let rest = row_ids(evs.drop_first());
                if is_row_tag(name@) {
                    match row_id(raw@) {
                        Some(id) => seq![id] + rest,
                        None => rest,
                    }
                } else {
                    rest
                }
            },
            _ => row_ids(evs.drop_first()),
        }
    }
}

/// The row ids of a listing already read into events.
pub fn row_order(evs: &Vec<XmlEvent>) -> (r: Vec<String>)
    ensures
        strings_view(r@) == row_ids(evs@),
{
    let mut out: Vec<String> = Vec::new();
    let mut i: usize = 0;
    assert(evs@.skip(0) =~= evs@);
    while i < evs.len()
        invariant
            i <= evs.len(),
            row_ids(evs@) == strings_view(out@) + row_ids(evs@.skip(i as int)),
        decreases evs.len() - i,
    {
        let ghost rest = evs@.skip(i as int);
        assert(rest[0] == evs@[i as int]);
        assert(rest.drop_first() =~= evs@.skip(i + 1));
        match &evs[i] {
            XmlEvent::End => {
                assert(row_ids(rest) =~= Seq::<Seq<char>>::empty());
                assert(strings_view(out@) + Seq::<Seq<char>>::empty() =~= strings_view(out@));
                return out;
            },
            XmlEvent::Invalid(_) => {
                assert(strings_view(out@) + Seq::<Seq<char>>::empty() =~= strings_view(out@));
                return out;
            },
            XmlEvent::Open { name, raw, .. } => {
                if str_eq(name.as_str(), "Video") || str_eq(name.as_str(), "Metadata") || str_eq(
                    name.as_str(),
                    "Directory",
                ) {
                    let id = match crate::xml::last_attribute_of(raw, "ratingKey") {
                        Some(k) => Some(k),
                        None => crate::xml::last_attribute_of(raw, "key"),
                    };
                    match id {
                        Some(k) => {
                            let ghost before = strings_view(out@);
                            out.push(k);
                            assert(strings_view(out@) =~= before.push(k@));
                            assert(before + (seq![k@] + row_ids(evs@.skip(i + 1))) =~= before.push(
                                k@,
                            ) + row_ids(evs@.skip(i + 1)));
                        },
                        None => {},
                    }
                }
            },
            _ => {},
        }
        i += 1;
    }
    assert(evs@.skip(i as int) =~= Seq::<XmlEvent>::empty());
    assert(strings_view(out@) + Seq::<Seq<char>>::empty() =~= strings_view(out@));
    out
}

/// A row answers to `id` by its rating key or its key.
pub open spec fn answers_to(id: Seq<char>) -> spec_fn(PlexVideo) -> bool {
    |v: PlexVideo| v.rating_key@ == id || v.key@ == id
}

/// The rows still to place, by kind, and those placed so far.
pub struct MergeState {
    pub videos: Seq<PlexVideo>,
    pub metas: Seq<PlexVideo>,
    pub dirs: Seq<PlexVideo>,
    pub out: Seq<PlexVideo>,
}

/// Placing one id: the first video row answering to it, else the first
/// metadata row, else the first directory row, moves to the output.
pub open spec fn merge_step(st: MergeState, id: Seq<char>) -> MergeState {
    match crate::seqs::first_match(st.videos, answers_to(id)) {
        Some(i) => MergeState { videos: st.videos.remove(i), out: st.out.push(st.videos[i]), ..st },
        None => match crate::seqs::first_match(st.metas, answers_to(id)) {
            Some(i) => MergeState { metas: st.metas.remove(i), out: st.out.push(st.metas[i]), ..st },
            None => match crate::seqs::first_match(st.dirs, answers_to(id)) {
                Some(i) => MergeState { dirs: st.dirs.remove(i), out: st.out.push(st.dirs[i]), ..st },
                None => st,
            },
        },
    }
}

pub open spec fn merge_all(ids: Seq<Seq<char>>, st: MergeState) -> MergeState
    decreases ids.len(),
{
    if ids.len() == 0 {
        st
    } else {
        merge_all(ids.drop_first(), merge_step(st, ids[0]))
    }
}

/// The rows in document order; rows no id placed follow, videos, then
/// metadata rows, then directories.
pub open spec fn in_document_order(
    ids: Seq<Seq<char>>,
    videos: Seq<PlexVideo>,
    metas: Seq<PlexVideo>,
    dirs: Seq<PlexVideo>,
) -> Seq<PlexVideo> {
    let st = merge_all(ids, MergeState { videos, metas, dirs, out: Seq::empty() });
    st.out + st.videos + st.metas + st.dirs
}

fn take_first_answering(pool: &mut Vec<PlexVideo>, id: &str) -> (r: Option<PlexVideo>)
    ensures
        match crate::seqs::first_match(old(pool)@, answers_to(id@)) {
            Some(i) => r == Some(old(pool)@[i]) && final(pool)@ == old(pool)@.remove(i),
            None => r is None && final(pool)@ == old(pool)@,
        },
{
    let mut i: usize = 0;
    while i < pool.len()
        invariant
            i <= pool.len(),
            pool@ == old(pool)@,
            forall|k: int| 0 <= k < i ==> !(answers_to(id@))(#[trigger] pool@[k]),
        decreases pool.len() - i,
    {
        if str_eq(pool[i].rating_key.as_str(), id) || str_eq(pool[i].key.as_str(), id) {
            proof {
                crate::seqs::lemma_first_match_found(pool@, answers_to(id@), i as int);
            }
            let v = pool.remove(i);
            return Some(v);
        }
        i += 1;
    }
    proof {
        crate::seqs::lemma_first_match_none(pool@, answers_to(id@));
    }
    None
}

/// A listing's parsed rows put back in document order.
pub fn merge_in_document_order(
    ids: &Vec<String>,
    videos: Vec<PlexVideo>,
    metas: Vec<PlexVideo>,
    dirs: Vec<PlexVideo>,
) -> (r: Vec<PlexVideo>)
    ensures
        r@ == in_document_order(strings_view(ids@), videos@, metas@, dirs@),
{
    let ghost sv = strings_view(ids@);
    let mut videos = videos;
    let mut metas = metas;
    let mut dirs = dirs;
    let mut out: Vec<PlexVideo> = Vec::new();
    let ghost start = MergeState { videos: videos@, metas: metas@, dirs: dirs@, out: Seq::empty() };
    let mut i: usize = 0;
    assert(sv.skip(0) =~= sv);
    while i < ids.len()
        invariant
            i <= ids.len(),
            sv == strings_view(ids@),
            merge_all(sv, start) == merge_all(
                sv.skip(i as int),
                MergeState { videos: videos@, metas: metas@, dirs: dirs@, out: out@ },
            ),
        decreases ids.len() - i,
    {
        let ghost st = MergeState { videos: videos@, metas: metas@, dirs: dirs@, out: out@ };
        assert(sv.skip(i as int)[0] == ids@[i as int]@);
        assert(sv.skip(i as int).drop_first() =~= sv.skip(i + 1));
        let id = ids[i].as_str();
        match take_first_answering(&mut videos, id) {
            Some(v) => {
                out.push(v);
            },
            None => match take_first_answering(&mut metas, id) {
                Some(v) => {
                    out.push(v);
                },
                None => match take_first_answering(&mut dirs, id) {
                    Some(v) => {
                        out.push(v);
                    },
                    None => {},
                },
            },
        }
        assert(MergeState { videos: videos@, metas: metas@, dirs: dirs@, out: out@ } == merge_step(
            st,
            ids@[i as int]@,
        ));
        i += 1;
    }
    assert(sv.skip(i as int) =~= Seq::<Seq<char>>::empty());
    out.append(&mut videos);
    out.append(&mut metas);
    out.append(&mut dirs);
    out
}

// ---- listing rows read from their attributes ----------------------------------

pub open spec fn attr_text(attrs: Seq<(String, String)>, name: Seq<char>) -> Option<Seq<char>> {
    crate::xml::attr_last(attrs, name)
}

pub open spec fn attr_u64(attrs: Seq<(String, String)>, name: Seq<char>) -> Option<u64> {
    match crate::xml::attr_last(attrs, name) {
        Some(v) => crate::text::parse_u64(v),
        None => None,
    }
}

pub open spec fn attr_u32(attrs: Seq<(String, String)>, name: Seq<char>) -> Option<u32> {
    match crate::xml::attr_last(attrs, name) {
        Some(v) => crate::text::parse_u32(v),
        None => None,
    }
}

fn last_text(attrs: &Vec<(String, String)>, name: &str) -> (r: Option<String>)
    ensures
        crate::text::opt_view(r) == attr_text(attrs@, name@),
{
    crate::xml::last_attribute_of(attrs, name)
}

fn last_u64(attrs: &Vec<(String, String)>, name: &str) -> (r: Option<u64>)
    ensures
        r == attr_u64(attrs@, name@),
{
    match crate::xml::last_attribute_of(attrs, name) {
        Some(v) => crate::text::parse_u64_str(v.as_str()),
        None => None,
    }
}

fn last_u32(attrs: &Vec<(String, String)>, name: &str) -> (r: Option<u32>)
    ensures
        r == attr_u32(attrs@, name@),
{
    match crate::xml::last_attribute_of(attrs, name) {
        Some(v) => crate::text::parse_u32_str(v.as_str()),
        None => None,
    }
}

pub open spec fn or_empty_text(o: Option<Seq<char>>) -> Seq<char> {
    match o {
        Some(v) => v,
        None => Seq::empty(),
    }
}

/// `v` is the listing row `attrs` describe: a later duplicate attribute
/// wins, an unparsable number is absent, the rating key falls back to the
/// key when empty, and nothing else is set.
pub open spec fn video_read(v: PlexVideo, attrs: Seq<(String, String)>) -> bool {
    &&& v.key@ == or_empty_text(attr_text(attrs, "key"@))
    &&& v.rating_key@ == if or_empty_text(attr_text(attrs, "ratingKey"@)).len() == 0 {
        or_empty_text(attr_text(attrs, "key"@))
    } else {
        or_empty_text(attr_text(attrs, "ratingKey"@))
    }
    &&& v.title@ == or_empty_text(attr_text(attrs, "title"@))
    &&& crate::text::opt_view(v.title_sort) == attr_text(attrs, "titleSort"@)
    &&& crate::text::opt_view(v.summary) == attr_text(attrs, "summary"@)
    &&& v.duration == attr_u64(attrs, "duration"@)
    &&& v.view_offset == attr_u64(attrs, "viewOffset"@)
    &&& v.view_count == attr_u64(attrs, "viewCount"@)
    &&& v.last_viewed_at == attr_u64(attrs, "lastViewedAt"@)
    &&& crate::text::opt_view(v.thumb) == attr_text(attrs, "thumb"@)
    &&& crate::text::opt_view(v.grandparent_thumb) == attr_text(attrs, "grandparentThumb"@)
    &&& crate::text::opt_view(v.art) == attr_text(attrs, "art"@)
    &&& v.year == attr_u32(attrs, "year"@)
    &&& crate::text::opt_view(v.media_type) == attr_text(attrs, "type"@)
    &&& v.index == attr_u32(attrs, "index"@)
    &&& v.parent_index == attr_u32(attrs, "parentIndex"@)
    &&& crate::text::opt_view(v.grandparent_title) == attr_text(attrs, "grandparentTitle"@)
    &&& crate::text::opt_view(v.parent_title) == attr_text(attrs, "parentTitle"@)
    &&& crate::text::opt_view(v.parent_rating_key) == attr_text(attrs, "parentRatingKey"@)
    &&& crate::text::opt_view(v.grandparent_rating_key) == attr_text(attrs, "grandparentRatingKey"@)
    &&& v.added_at is None && v.updated_at is None
    &&& v.media@.len() == 0 && v.guids@.len() == 0
}

/// A listing row read from its attributes.
#[verifier::rlimit(40)]
pub fn video_from_attrs(attrs: &Vec<(String, String)>) -> (r: PlexVideo)
    ensures
        video_read(r, attrs@),
{
    let key = match last_text(attrs, "key") {
        Some(k) => k,
        None => {
            proof {
                reveal_strlit("");
            }
            "".to_string()
        },
    };
    assert(key@ == or_empty_text(attr_text(attrs@, "key"@)));
    let rk = match last_text(attrs, "ratingKey") {
        Some(k) => k,
        None => {
            proof {
                reveal_strlit("");
            }
            "".to_string()
        },
    };
    let rating_key = if rk.as_str().is_empty() {
        key.clone()
    } else {
        rk
    };
    let title = match last_text(attrs, "title") {
        Some(t) => t,
        None => {
            proof {
                reveal_strlit("");
            }
            "".to_string()
        },
    };
    assert(title@ == or_empty_text(attr_text(attrs@, "title"@)));
    let v = PlexVideo {
        key,
        rating_key,
        title,
        title_sort: last_text(attrs, "titleSort"),
        summary: last_text(attrs, "summary"),
        duration: last_u64(attrs, "duration"),
        view_offset: last_u64(attrs, "viewOffset"),
        view_count: last_u64(attrs, "viewCount"),
        thumb: last_text(attrs, "thumb"),
        grandparent_thumb: last_text(attrs, "grandparentThumb"),
        art: last_text(attrs, "art"),
        added_at: None,
        last_viewed_at: last_u64(attrs, "lastViewedAt"),
        updated_at: None,
        media: Vec::new(),
        year: last_u32(attrs, "year"),
        media_type: last_text(attrs, "type"),
        index: last_u32(attrs, "index"),
        parent_index: last_u32(attrs, "parentIndex"),
        grandparent_title: last_text(attrs, "grandparentTitle"),
        parent_title: last_text(attrs, "parentTitle"),
        parent_rating_key: last_text(attrs, "parentRatingKey"),
        grandparent_rating_key: last_text(attrs, "grandparentRatingKey"),
        guids: Vec::new(),
    };
    assert(video_read(v, attrs@));
    v
}

/// The attribute lists of the `Video`, `Directory` and `Metadata` rows, in
/// document order, up to the end of input or the first malformed spot.
pub open spec fn row_attrs(evs: Seq<XmlEvent>) -> Seq<Seq<(String, String)>>
    decreases evs.len(),
{
    if evs.len() == 0 {
        Seq::empty()
    } else {
        match evs[0] {
            XmlEvent::End => Seq::empty(),
            XmlEvent::Invalid(_) => Seq::empty(),
            XmlEvent::Open { name, attributes, .. } => if is_row_tag(name@) {
                seq![attributes@] + row_attrs(evs.drop_first())
            } else {
                row_attrs(evs.drop_first())
            },
            _ => row_attrs(evs.drop_first()),
        }
    }
}

/// The listing rows of a document already read into events, each as
/// [`video_from_attrs`] reads it.
pub fn videos_from_events(evs: &Vec<XmlEvent>) -> (r: Vec<PlexVideo>)
    ensures
        r@.len() == row_attrs(evs@).len(),
        forall|i: int| 0 <= i < r@.len() ==> video_read(#[trigger] r@[i], row_attrs(evs@)[i]),
{
    let mut out: Vec<PlexVideo> = Vec::new();
    let ghost mut seen: Seq<Seq<(String, String)>> = Seq::empty();
    let mut i: usize = 0;
    assert(evs@.skip(0) =~= evs@);
    while i < evs.len()
        invariant
            i <= evs.len(),
            row_attrs(evs@) == seen + row_attrs(evs@.skip(i as int)),
            out@.len() == seen.len(),
            forall|k: int| 0 <= k < out@.len() ==> video_read(#[trigger] out@[k], seen[k]),
        decreases evs.len() - i,
    {
        let ghost rest = evs@.skip(i as int);
        assert(rest[0] == evs@[i as int]);
        assert(rest.drop_first() =~= evs@.skip(i + 1));
        match &evs[i] {
            XmlEvent::End => {
                assert(seen + Seq::<Seq<(String, String)>>::empty() =~= seen);
                return out;
            },
            XmlEvent::Invalid(_) => {
                assert(seen + Seq::<Seq<(String, String)>>::empty() =~= seen);
                return out;
            },
            XmlEvent::Open { name, attributes, .. } => {
                if str_eq(name.as_str(), "Video") || str_eq(name.as_str(), "Metadata") || str_eq(
                    name.as_str(),
                    "Directory",
                ) {
                    let v = video_from_attrs(attributes);
                    out.push(v);
                    proof {
                        assert(seen + (seq![attributes@] + row_attrs(evs@.skip(i + 1))) =~= seen.push(
                            attributes@,
                        ) + row_attrs(evs@.skip(i + 1)));
                        seen = seen.push(attributes@);
                    }
                }
            },
            _ => {},
        }
        i += 1;
    }
    assert(evs@.skip(i as int) =~= Seq::<XmlEvent>::empty());
    assert(seen + Seq::<Seq<(String, String)>>::empty() =~= seen);
    out
}

/// The listing rows of a Plex XML document.
pub fn videos_from_xml(body: &str) -> (r: Vec<PlexVideo>)
    ensures
        r@.len() == row_attrs(crate::xml::document_events(body)).len(),
        forall|i: int|
            0 <= i < r@.len() ==> video_read(
                #[trigger] r@[i],
                row_attrs(crate::xml::document_events(body))[i],
            ),
{
    let evs = crate::xml::read_events(body);
    videos_from_events(&evs)
}

pub open spec fn is_playlist_row_tag(n: Seq<char>) -> bool {
    n == "Playlist"@ || n == "Metadata"@ || n == "Directory"@
}

/// A row names a video playlist: it is a `Playlist` element or typed
/// `playlist`, and its playlist type, when given, is `video`.
pub open spec fn playlist_row(tag: Seq<char>, attrs: Seq<(String, String)>) -> Option<
    (Seq<char>, Seq<char>, Option<usize>),
> {
    let is_playlist = tag == "Playlist"@ || attr_text(attrs, "type"@) == Some("playlist"@);
    let video = match attr_text(attrs, "playlistType"@) {
        Some(k) => k == "video"@,
        None => true,
    };
    if is_playlist && video {
        match (attr_text(attrs, "ratingKey"@), attr_text(attrs, "title"@)) {
            (Some(k), Some(t)) => if k.len() > 0 && t.len() > 0 {
                Some(
                    (
                        k,
                        t,
                        match crate::xml::attr_last(attrs, "leafCount"@) {
                            Some(v) => crate::text::parse_usize(v),
                            None => None,
                        },
                    ),
                )
            } else {
                None
            },
            _ => None,
        }
    } else {
        None
    }
}

/// The video playlists of a playlist listing, in document order; the first
/// malformed spot, or a playlist row with a malformed attribute, fails it
/// with the reader's message.
pub open spec fn playlists_of(evs: Seq<XmlEvent>) -> Result<Seq<(Seq<char>, Seq<char>, Option<usize>)>, Seq<char>>
    decreases evs.len(),
{
    if evs.len() == 0 {
        Ok(Seq::empty())
    } else {
        match evs[0] {
            XmlEvent::End => Ok(Seq::empty()),
            XmlEvent::Invalid(m) => Err(m@),
            XmlEvent::Open { name, attributes, attribute_error, .. } => if is_playlist_row_tag(name@)
                && attribute_error is Some {
                Err(attribute_error->0@)
            } else {
                match playlists_of(evs.drop_first()) {
                    Ok(rest) => if is_playlist_row_tag(name@) {
                        match playlist_row(name@, attributes@) {
                            Some(p) => Ok(seq![p] + rest),
                            None => Ok(rest),
                        }
                    } else {
                        Ok(rest)
                    },
                    Err(m) => Err(m),
                }
            },
            _ => playlists_of(evs.drop_first()),
        }
    }
}

pub open spec fn playlist_view(p: PlexPlaylist) -> (Seq<char>, Seq<char>, Option<usize>) {
    (p.rating_key@, p.title@, p.leaf_count)
}

fn parse_usize_str(s: &str) -> (r: Option<usize>)
    ensures
        r == crate::text::parse_usize(s@),
{
    proof {
        let d = if s@.len() > 0 && s@[0] == '+' {
            s@.drop_first()
        } else {
            s@
        };
        if crate::text::all_digits(d) {
            crate::text::lemma_digits_value_nonneg(d);
        }
    }
    match crate::text::parse_u64_str(s) {
        Some(x) => if x <= usize::MAX as u64 {
            Some(x as usize)
        } else {
            None
        },
        None => None,
    }
}

fn playlist_row_of(tag: &str, attrs: &Vec<(String, String)>) -> (r: Option<PlexPlaylist>)
    ensures
        match playlist_row(tag@, attrs@) {
            Some(p) => r matches Some(q) && playlist_view(q) == p,
            None => r is None,
        },
{
    let media_type = last_text(attrs, "type");
    let is_playlist = str_eq(tag, "Playlist") || match &media_type {
        Some(t) => str_eq(t.as_str(), "playlist"),
        None => false,
    };
    let video = match last_text(attrs, "playlistType") {
        Some(k) => str_eq(k.as_str(), "video"),
        None => true,
    };
    if !(is_playlist && video) {
        return None;
    }
    let rating_key = match last_text(attrs, "ratingKey") {
        Some(k) => k,
        None => return None,
    };
    let title = match last_text(attrs, "title") {
        Some(t) => t,
        None => return None,
    };
    if rating_key.as_str().is_empty() || title.as_str().is_empty() {
        return None;
    }
    let leaf_count = match crate::xml::last_attribute_of(attrs, "leafCount") {
        Some(v) => parse_usize_str(v.as_str()),
        None => None,
    };
    Some(PlexPlaylist { rating_key, title, leaf_count })
}

/// The video playlists of a playlist listing already read into events.
pub fn playlists_from_events(evs: &Vec<XmlEvent>) -> (r: Result<Vec<PlexPlaylist>, String>)
    ensures
        match playlists_of(evs@) {
            Ok(ps) => r matches Ok(v) && v@.map_values(|p: PlexPlaylist| playlist_view(p)) == ps,
            Err(m) => r matches Err(e) && e@ == m,
        },
{
    let mut out: Vec<PlexPlaylist> = Vec::new();
    let mut i: usize = 0;
    assert(evs@.skip(0) =~= evs@);
    assert(out@.map_values(|p: PlexPlaylist| playlist_view(p)) =~= Seq::<(Seq<char>, Seq<char>, Option<usize>)>::empty());
    while i < evs.len()
        invariant
            i <= evs.len(),
            playlists_of(evs@) == match playlists_of(evs@.skip(i as int)) {
                Ok(rest) => Ok(out@.map_values(|p: PlexPlaylist| playlist_view(p)) + rest),
                Err(m) => Err(m),
            },
        decreases evs.len() - i,
    {
        let ghost rest = evs@.skip(i as int);
        assert(rest[0] == evs@[i as int]);
        assert(rest.drop_first() =~= evs@.skip(i + 1));
        let ghost before = out@.map_values(|p: PlexPlaylist| playlist_view(p));
        match &evs[i] {
            XmlEvent::End => {
                assert(before + Seq::<(Seq<char>, Seq<char>, Option<usize>)>::empty() =~= before);
                return Ok(out);
            },
            XmlEvent::Invalid(m) => {
                return Err(m.clone());
            },
            XmlEvent::Open { name, attributes, attribute_error, .. } => {
                if str_eq(name.as_str(), "Playlist") || str_eq(name.as_str(), "Metadata") || str_eq(
                    name.as_str(),
                    "Directory",
                ) {
                    match attribute_error {
                        Some(m) => return Err(m.clone()),
                        None => {},
                    }
                    match playlist_row_of(name.as_str(), attributes) {
                        Some(p) => {
                            out.push(p);
                            proof {
                                let pv = playlist_view(p);
                                assert(out@.map_values(|p: PlexPlaylist| playlist_view(p)) =~= before.push(pv));
                                match playlists_of(evs@.skip(i + 1)) {
                                    Ok(r2) => {
                                        assert(before + (seq![pv] + r2) =~= before.push(pv) + r2);
                                    },
                                    Err(_) => {},
                                }
                            }
                        },
                        None => {},
                    }
                }
            },
            _ => {},
        }
        i += 1;
    }
    assert(evs@.skip(i as int) =~= Seq::<XmlEvent>::empty());
    assert(out@.map_values(|p: PlexPlaylist| playlist_view(p)) + Seq::<(Seq<char>, Seq<char>, Option<usize>)>::empty() =~= out@.map_values(|p: PlexPlaylist| playlist_view(p)));
    Ok(out)
}

/// The video playlists of a Plex playlist listing.
pub fn playlists_from_xml(body: &str) -> (r: Result<Vec<PlexPlaylist>, String>)
    ensures
        match playlists_of(crate::xml::document_events(body)) {
            Ok(ps) => r matches Ok(v) && v@.map_values(|p: PlexPlaylist| playlist_view(p)) == ps,
            Err(m) => r matches Err(e) && e@ == m,
        },
{
    let evs = crate::xml::read_events(body);
    playlists_from_events(&evs)
}

// ---- the resume point of an item ---------------------------------------------

/// The last attribute called `name` whose value parses as a `u64`.
pub open spec fn last_parsed_u64(attrs: Seq<(String, String)>, name: Seq<char>) -> Option<u64>
    decreases attrs.len(),
{
    if attrs.len() == 0 {
        None
    } else if attrs.last().0@ == name && crate::text::parse_u64(attrs.last().1@) is Some {
        crate::text::parse_u64(attrs.last().1@)
    } else {
        last_parsed_u64(attrs.drop_last(), name)
    }
}

/// The view offset of the row whose rating key, as written, is `key`; else
/// of the first row carrying both a rating key and a view offset; scanning stops at the
/// end of input or the first malformed spot.
pub open spec fn resume_offset(evs: Seq<XmlEvent>, key: Seq<char>, candidate: Option<u64>) -> Option<u64>
    decreases evs.len(),
{
    if evs.len() == 0 {
        candidate
    } else {
        match evs[0] {
            XmlEvent::End => candidate,
            XmlEvent::Invalid(_) => candidate,
            XmlEvent::Open { name, raw, .. } => if name@ == "Video"@ || name@ == "Metadata"@ {
                match (
                    crate::xml::attr_last(raw@, "ratingKey"@),
                    last_parsed_u64(raw@, "viewOffset"@),
                ) {
                    (Some(rk), Some(v)) => if rk == key {
                        Some(v)
                    } else {
                        resume_offset(
                            evs.drop_first(),
                            key,
                            if candidate is None {
                                Some(v)
                            } else {
                                candidate
                            },
                        )
                    },
                    _ => resume_offset(evs.drop_first(), key, candidate),
                }
            } else {
                resume_offset(evs.drop_first(), key, candidate)
            },
            _ => resume_offset(evs.drop_first(), key, candidate),
        }
    }
}

fn last_parsed_offset(attrs: &Vec<(String, String)>, name: &str) -> (r: Option<u64>)
    ensures
        r == last_parsed_u64(attrs@, name@),
{
    let mut found: Option<u64> = None;
    let mut i: usize = 0;
    while i < attrs.len()
        invariant
            i <= attrs.len(),
            found == last_parsed_u64(attrs@.take(i as int), name@),
        decreases attrs.len() - i,
    {
        let ghost t = attrs@.take(i + 1);
        assert(t.drop_last() =~= attrs@.take(i as int));
        assert(t.last() == attrs@[i as int]);
        if str_eq(attrs[i].0.as_str(), name) {
            match crate::text::parse_u64_str(attrs[i].1.as_str()) {
                Some(v) => {
                    found = Some(v);
                },
                None => {},
            }
        }
        i += 1;
    }
    assert(attrs@.take(i as int) =~= attrs@);
    found
}

/// The resume point an item's metadata document gives for `rating_key`.
pub fn resume_offset_from_events(evs: &Vec<XmlEvent>, rating_key: &str) -> (r: Option<u64>)
    ensures
        r == resume_offset(evs@, rating_key@, None),
{
    let mut candidate: Option<u64> = None;
    let mut i: usize = 0;
    assert(evs@.skip(0) =~= evs@);
    while i < evs.len()
        invariant
            i <= evs.len(),
            resume_offset(evs@, rating_key@, None) == resume_offset(
                evs@.skip(i as int),
                rating_key@,
                candidate,
            ),
        decreases evs.len() - i,
    {
        let ghost rest = evs@.skip(i as int);
        assert(rest[0] == evs@[i as int]);
        assert(rest.drop_first() =~= evs@.skip(i + 1));
        match &evs[i] {
            XmlEvent::End => {
                return candidate;
            },
            XmlEvent::Invalid(_) => {
                return candidate;
            },
            XmlEvent::Open { name, raw, .. } => {
                if str_eq(name.as_str(), "Video") || str_eq(name.as_str(), "Metadata") {
                    let rk = crate::xml::last_attribute_of(raw, "ratingKey");
                    let vo = last_parsed_offset(raw, "viewOffset");
                    match (rk, vo) {
                        (Some(k), Some(v)) => {
                            if str_eq(k.as_str(), rating_key) {
                                return Some(v);
                            }
                            if candidate.is_none() {
                                candidate = Some(v);
                            }
                        },
                        _ => {},
                    }
                }
            },
            _ => {},
        }
        i += 1;
    }
    assert(evs@.skip(i as int) =~= Seq::<XmlEvent>::empty());
    candidate
}

// ---- home-screen hubs -----------------------------------------------------------

/// A home-screen row (Continue Watching, Recently Added, ...).
#[derive(Debug, Clone)]
pub struct PlexHub {
    pub title: String,
    pub hub_identifier: String,
    pub hub_type: String,
    pub items: Vec<PlexVideo>,
}

/// An open hub in a scan: its attributes and its rows' attributes so far.
pub struct HubScan {
    pub attrs: Seq<(String, String)>,
    pub rows: Seq<Seq<(String, String)>>,
}

/// The hubs kept so far plus the open one, if it has rows.
pub open spec fn close_hub(out: Seq<HubScan>, cur: Option<HubScan>) -> Seq<HubScan> {
    match cur {
        Some(h) => if h.rows.len() > 0 {
            out.push(h)
        } else {
            out
        },
        None => out,
    }
}

/// The hubs of a hubs document from event `i`: a `Hub` tag closes the open
/// hub and opens a new one, a row tag inside a hub joins it, a `Hub` end tag
/// closes it; hubs without rows are dropped, and the scan stops at the end
/// of input or the first malformed spot.
pub open spec fn hubs_from(evs: Seq<XmlEvent>, out: Seq<HubScan>, cur: Option<HubScan>) -> Seq<HubScan>
    decreases evs.len(),
{
    if evs.len() == 0 {
        close_hub(out, cur)
    } else {
        match evs[0] {
            XmlEvent::End => close_hub(out, cur),
            XmlEvent::Invalid(_) => close_hub(out, cur),
            XmlEvent::Open { name, attributes, .. } => if name@ == "Hub"@ {
                hubs_from(
                    evs.drop_first(),
                    close_hub(out, cur),
                    Some(HubScan { attrs: attributes@, rows: Seq::empty() }),
                )
            } else if is_row_tag(name@) {
                match cur {
                    Some(h) => hubs_from(
                        evs.drop_first(),
                        out,
                        Some(HubScan { rows: h.rows.push(attributes@), ..h }),
                    ),
                    None => hubs_from(evs.drop_first(), out, cur),
                }
            } else {
                hubs_from(evs.drop_first(), out, cur)
            },
            XmlEvent::Close { name } => if name@ == "Hub"@ {
                hubs_from(evs.drop_first(), close_hub(out, cur), None)
            } else {
                hubs_from(evs.drop_first(), out, cur)
            },
            _ => hubs_from(evs.drop_first(), out, cur),
        }
    }
}

/// `h` is the hub `scan` describes: its title, identifier and type from its
/// attributes (later duplicates win), its rows read in order.
pub open spec fn hub_read(h: PlexHub, scan: HubScan) -> bool {
    &&& h.title@ == or_empty_text(attr_text(scan.attrs, "title"@))
    &&& h.hub_identifier@ == or_empty_text(attr_text(scan.attrs, "hubIdentifier"@))
    &&& h.hub_type@ == or_empty_text(attr_text(scan.attrs, "type"@))
    &&& h.items@.len() == scan.rows.len()
    &&& forall|j: int| 0 <= j < h.items@.len() ==> video_read(#[trigger] h.items@[j], scan.rows[j])
}

pub open spec fn hubs_read(v: Seq<PlexHub>, s: Seq<HubScan>) -> bool {
    v.len() == s.len() && forall|i: int| 0 <= i < v.len() ==> hub_read(#[trigger] v[i], s[i])
}

fn text_or_empty(attrs: &Vec<(String, String)>, name: &str) -> (r: String)
    ensures
        r@ == or_empty_text(attr_text(attrs@, name@)),
{
    match last_text(attrs, name) {
        Some(t) => t,
        None => {
            proof {
                reveal_strlit("");
            }
            "".to_string()
        },
    }
}

fn hub_from_attrs(attrs: &Vec<(String, String)>) -> (r: PlexHub)
    ensures
        hub_read(r, HubScan { attrs: attrs@, rows: Seq::empty() }),
{
    PlexHub {
        title: text_or_empty(attrs, "title"),
        hub_identifier: text_or_empty(attrs, "hubIdentifier"),
        hub_type: text_or_empty(attrs, "type"),
        items: Vec::new(),
    }
}

fn close_open_hub(out: &mut Vec<PlexHub>, cur: Option<PlexHub>, Ghost(so): Ghost<Seq<HubScan>>, Ghost(sc): Ghost<Option<HubScan>>)
    requires
        hubs_read(old(out)@, so),
        match (cur, sc) {
            (Some(h), Some(c)) => hub_read(h, c),
            (None, None) => true,
            _ => false,
        },
    ensures
        hubs_read(final(out)@, close_hub(so, sc)),
{
    if let Some(h) = cur {
        if h.items.len() > 0 {
            let ghost before = out@;
            out.push(h);
            assert(out@ == before.push(h));
            let ghost c = sc->0;
            assert forall|i: int| 0 <= i < out@.len() implies hub_read(#[trigger] out@[i], so.push(c)[i]) by {
                if i < before.len() {
                    assert(out@[i] == before[i]);
                }
            }
        }
    }
}

/// The hubs of a hubs document already read into events.
pub fn hubs_from_events(evs: &Vec<XmlEvent>) -> (r: Vec<PlexHub>)
    ensures
        hubs_read(r@, hubs_from(evs@, Seq::empty(), None)),
{
    let mut out: Vec<PlexHub> = Vec::new();
    let mut cur: Option<PlexHub> = None;
    let ghost mut so: Seq<HubScan> = Seq::empty();
    let ghost mut sc: Option<HubScan> = None;
    let mut i: usize = 0;
    assert(evs@.skip(0) =~= evs@);
    while i < evs.len()
        invariant
            i <= evs.len(),
            hubs_from(evs@, Seq::empty(), None) == hubs_from(evs@.skip(i as int), so, sc),
            hubs_read(out@, so),
            match (cur, sc) {
                (Some(h), Some(c)) => hub_read(h, c),
                (None, None) => true,
                _ => false,
            },
        decreases evs.len() - i,
    {
        let ghost rest = evs@.skip(i as int);
        assert(rest[0] == evs@[i as int]);
        assert(rest.drop_first() =~= evs@.skip(i + 1));
        match &evs[i] {
            XmlEvent::End => {
                close_open_hub(&mut out, cur, Ghost(so), Ghost(sc));
                return out;
            },
            XmlEvent::Invalid(_) => {
                close_open_hub(&mut out, cur, Ghost(so), Ghost(sc));
                return out;
            },
            XmlEvent::Open { name, attributes, .. } => {
                if str_eq(name.as_str(), "Hub") {
                    let prev = cur;
                    close_open_hub(&mut out, prev, Ghost(so), Ghost(sc));
                    cur = Some(hub_from_attrs(attributes));
                    proof {
                        so = close_hub(so, sc);
                        sc = Some(HubScan { attrs: attributes@, rows: Seq::empty() });
                    }
                } else if str_eq(name.as_str(), "Video") || str_eq(name.as_str(), "Metadata")
                    || str_eq(name.as_str(), "Directory") {
                    match cur {
                        Some(mut h) => {
                            let ghost c = sc->0;
                            let ghost items0 = h.items@;
                            let v = video_from_attrs(attributes);
                            h.items.push(v);
                            proof {
                                let c2 = HubScan { rows: c.rows.push(attributes@), ..c };
                                assert forall|j: int| 0 <= j < h.items@.len() implies video_read(
                                    #[trigger] h.items@[j],
                                    c2.rows[j],
                                ) by {
                                    if j < items0.len() {
                                        assert(h.items@[j] == items0[j]);
                                    }
                                }
                                sc = Some(c2);
                            }
                            cur = Some(h);
                        },
                        None => {
                            cur = None;
                        },
                    }
                }
            },
            XmlEvent::Close { name } => {
                if str_eq(name.as_str(), "Hub") {
                    let prev = cur;
                    close_open_hub(&mut out, prev, Ghost(so), Ghost(sc));
                    cur = None;
                    proof {
                        so = close_hub(so, sc);
                        sc = None;
                    }
                }
            },
            XmlEvent::Other => {},
        }
        i += 1;
    }
    assert(evs@.skip(i as int) =~= Seq::<XmlEvent>::empty());
    close_open_hub(&mut out, cur, Ghost(so), Ghost(sc));
    out
}

/// The hubs of a Plex hubs document.
pub fn hubs_from_xml(body: &str) -> (r: Vec<PlexHub>)
    ensures
        hubs_read(r@, hubs_from(crate::xml::document_events(body), Seq::empty(), None)),
{
    let evs = crate::xml::read_events(body);
    hubs_from_events(&evs)
}

// ---- part URLs without credentials ----------------------------------------------

/// A query pair that carries a credential: Plex's token parameter in any
/// letter case, or the active token anywhere in a key or value.
pub open spec fn credential_pair(p: (Seq<char>, Seq<char>), token: Seq<char>) -> bool {
    lower(p.0) == "x-plex-token"@ || (token.len() > 0 && (contains(p.0, token) || contains(p.1, token)))
}

/// A part key may be played from the chosen server only when neither its
/// path nor its query carries a credential; it is then re-rooted onto the
/// server with only its own query pairs and `download=1`.
pub open spec fn part_url_of(base: Seq<char>, key: Seq<char>, token: Seq<char>) -> Option<Seq<char>> {
    match crate::urls::part_key_target(base, key) {
        None => None,
        Some((path, pairs)) => if (token.len() > 0 && contains(path, token)) || exists|i: int|
            0 <= i < pairs.len() && credential_pair(#[trigger] pairs[i], token) {
            None
        } else {
            crate::urls::url_rerooted(base, path, pairs.push(("download"@, "1"@)))
        },
    }
}

/// The playable, credential-free URL of one part.
pub fn part_url(base: &str, part_key: &str, auth_token: &str) -> (r: Option<String>)
    ensures
        crate::text::opt_view(r) == part_url_of(base@, part_key@, auth_token@),
{
    let (path, mut pairs) = match crate::urls::resolve_part_key(base, part_key) {
        Some(t) => t,
        None => return None,
    };
    let has_token = !auth_token.is_empty();
    if has_token && contains_str(path.as_str(), auth_token) {
        return None;
    }
    let ghost pv = pairs_view(pairs@);
    let mut i: usize = 0;
    while i < pairs.len()
        invariant
            i <= pairs.len(),
            pv == pairs_view(pairs@),
            crate::urls::part_key_target(base@, part_key@) == Some((path@, pv)),
            !(auth_token@.len() > 0 && contains(path@, auth_token@)),
            has_token == (auth_token@.len() > 0),
            forall|k: int| 0 <= k < i ==> !credential_pair(#[trigger] pv[k], auth_token@),
        decreases pairs.len() - i,
    {
        let k = pairs[i].0.as_str();
        let v = pairs[i].1.as_str();
        assert(pv[i as int] == (k@, v@));
        let lk = string_of(lower_chars(&chars_of(k)).as_slice());
        if str_eq(lk.as_str(), "x-plex-token") || (has_token && (contains_str(k, auth_token)
            || contains_str(v, auth_token))) {
            assert(credential_pair(pv[i as int], auth_token@));
            assert(exists|j: int| 0 <= j < pv.len() && credential_pair(#[trigger] pv[j], auth_token@));
            return None;
        }
        i += 1;
    }
    assert(!exists|i: int| 0 <= i < pv.len() && credential_pair(#[trigger] pv[i], auth_token@));
    pairs.push(("download".to_string(), "1".to_string()));
    assert(pairs_view(pairs@) =~= pv.push(("download"@, "1"@)));
    crate::urls::reroot_url(base, path.as_str(), &pairs)
}

/// `%<byte length>%<url>`, one EDL entry.
pub open spec fn edl_entry(u: Seq<char>) -> Seq<char> {
    "%"@ + decimal(vstd::utf8::encode_utf8(u).len()) + "%"@ + u
}

pub open spec fn edl_entries(parts: Seq<Seq<char>>) -> Seq<char>
    decreases parts.len(),
{
    if parts.len() == 0 {
        Seq::empty()
    } else if parts.len() == 1 {
        edl_entry(parts[0])
    } else {
        edl_entries(parts.drop_last()) + ";"@ + edl_entry(parts.last())
    }
}

/// The part URLs of the parts, in order, or none if any part cannot be
/// played without a credential.
pub open spec fn part_urls_of(base: Seq<char>, parts: Seq<PlexDetailPart>, token: Seq<char>) -> Option<Seq<Seq<char>>>
    decreases parts.len(),
{
    if parts.len() == 0 {
        Some(Seq::empty())
    } else {
        match (part_urls_of(base, parts.drop_last(), token), part_url_of(base, parts.last().key@, token)) {
            (Some(us), Some(u)) => Some(us.push(u)),
            _ => None,
        }
    }
}

/// What a media version plays from: its one part's URL, or an `edl://` URL
/// joining all its parts; nothing when it has no parts, a part without a
/// key, or a part that cannot be played without a credential.
pub open spec fn media_play_url(base: Seq<char>, parts: Seq<PlexDetailPart>, token: Seq<char>) -> Option<Seq<char>> {
    if parts.len() == 0 || exists|i: int| 0 <= i < parts.len() && (#[trigger] parts[i]).key@.len() == 0 {
        None
    } else {
        match part_urls_of(base, parts, token) {
            None => None,
            Some(us) => if us.len() == 1 {
                Some(us[0])
            } else {
                Some("edl://"@ + edl_entries(us))
            },
        }
    }
}

/// The play URL of a media version on the chosen server.
pub fn part_url_for_media(base: &str, auth_token: &str, media: &PlexDetailMedia) -> (r: Option<String>)
    ensures
        crate::text::opt_view(r) == media_play_url(base@, media.parts@, auth_token@),
{
    let parts = &media.parts;
    if parts.len() == 0 {
        return None;
    }
    let mut k: usize = 0;
    while k < parts.len()
        invariant
            k <= parts.len(),
            parts@ == media.parts@,
            parts@.len() > 0,
            forall|j: int| 0 <= j < k ==> (#[trigger] parts@[j]).key@.len() > 0,
        decreases parts.len() - k,
    {
        if parts[k].key.as_str().is_empty() {
            assert(parts@[k as int].key@.len() == 0);
            assert(exists|j: int| 0 <= j < parts@.len() && (#[trigger] parts@[j]).key@.len() == 0);
            return None;
        }
        k += 1;
    }
    let mut urls: Vec<String> = Vec::new();
    let mut i: usize = 0;
    while i < parts.len()
        invariant
            i <= parts.len(),
            part_urls_of(base@, parts@.take(i as int), auth_token@) == Some(strings_view(urls@)),
            forall|j: int| 0 <= j < parts@.len() ==> (#[trigger] parts@[j]).key@.len() > 0,
            parts@.len() > 0,
            parts@ == media.parts@,
        decreases parts.len() - i,
    {
        assert(parts@.take(i + 1).drop_last() =~= parts@.take(i as int));
        assert(parts@.take(i + 1).last() == parts@[i as int]);
        let ghost before = strings_view(urls@);
        match part_url(base, parts[i].key.as_str(), auth_token) {
            Some(u) => {
                urls.push(u);
                assert(strings_view(urls@) =~= before.push(u@));
            },
            None => {
                proof {
                    assert(part_urls_of(base@, parts@.take(i + 1), auth_token@) is None);
                    lemma_part_urls_prefix_none(base@, parts@, auth_token@, i + 1);
                }
                return None;
            },
        }
        i += 1;
    }
    assert(parts@.take(i as int) =~= parts@);
    if urls.len() == 1 {
        return Some(urls[0].clone());
    }
    let mut edl = "edl://".to_string();
    let mut j: usize = 0;
    let ghost uv = strings_view(urls@);
    while j < urls.len()
        invariant
            j <= urls.len(),
            uv == strings_view(urls@),
            edl@ == "edl://"@ + edl_entries(uv.take(j as int)),
        decreases urls.len() - j,
    {
        let u = urls[j].as_str();
        assert(uv[j as int] == u@);
        let n = u.as_bytes().len();
        assert(n == vstd::utf8::encode_utf8(u@).len());
        let head = concat("%", decimal_string(n as u64).as_str());
        let mid = concat(head.as_str(), "%");
        let entry = concat(mid.as_str(), u);
        assert(entry@ == edl_entry(u@));
        let ghost t = uv.take(j + 1);
        assert(t.drop_last() =~= uv.take(j as int));
        assert(t.last() == u@);
        if j > 0 {
            let sep = concat(edl.as_str(), ";");
            edl = concat(sep.as_str(), entry.as_str());
            assert(edl@ =~= "edl://"@ + edl_entries(t));
        } else {
            assert(t =~= seq![u@]);
            edl = concat(edl.as_str(), entry.as_str());
            assert(edl@ =~= "edl://"@ + edl_entries(t));
        }
        j += 1;
    }
    assert(uv.take(j as int) =~= uv);
    Some(edl)
}

proof fn lemma_part_urls_prefix_none(base: Seq<char>, parts: Seq<PlexDetailPart>, token: Seq<char>, n: int)
    requires
        0 < n <= parts.len(),
        part_urls_of(base, parts.take(n), token) is None,
    ensures
        part_urls_of(base, parts, token) is None,
    decreases parts.len() - n,
{
    if n < parts.len() {
        let t = parts.take(n + 1);
        assert(t.drop_last() =~= parts.take(n));
        lemma_part_urls_prefix_none(base, parts, token, n + 1);
    } else {
        assert(parts.take(n) =~= parts);
    }
}

/// A server entered by address rather than discovered: the scheme, host and
/// port it is reached at, its display name and the machine it is known to be
/// (empty while unknown); never local, never a relay, no version.
pub open spec fn endpoint_server(
    s: PlexServer,
    scheme: Seq<char>,
    host: Seq<char>,
    port: u16,
    name: Seq<char>,
    machine: Seq<char>,
) -> bool {
    &&& s.name@ == name
    &&& s.host@ == host
    &&& s.port == port
    &&& s.scheme@ == scheme
    &&& s.uri@ == origin_text(scheme, host, port)
    &&& !s.local
    &&& !s.relay
    &&& s.machine_identifier@ == machine
    &&& s.version@.len() == 0
}

/// A Plex client's own state: the server it talks to, the account token and
/// this client's identifier. The HTTP connections that carry its requests
/// belong to the caller.
#[derive(Debug, Clone)]
pub struct PlexLibrary {
    server: Option<PlexServer>,
    auth_token: String,
    client_identifier: String,
}

/// A Plex client as the contracts see it: the installed server, the token,
/// the client identifier.
pub type PlexLibraryView = (Option<PlexServer>, Seq<char>, Seq<char>);

impl View for PlexLibrary {
    type V = PlexLibraryView;

    closed spec fn view(&self) -> Self::V {
        (self.server, self.auth_token@, self.client_identifier@)
    }
}

impl PlexLibrary {
    /// A client with credentials and no server yet.
    pub fn new(auth_token: String, client_identifier: String) -> (r: Self)
        ensures
            r@ == (None::<PlexServer>, auth_token@, client_identifier@),
    {
        PlexLibrary { server: None, auth_token, client_identifier }
    }

    /// Point the client at a discovered server.
    pub fn set_server(&mut self, server: PlexServer)
        ensures
            final(self)@ == (Some(server), old(self)@.1, old(self)@.2),
    {
        self.server = Some(server);
    }

    /// Point the client at a server by address; it is named by `name`, else
    /// by its host, and its machine is unknown.
    pub fn set_server_manual(&mut self, host: String, port: u16, https: bool, name: Option<String>)
        ensures
            final(self)@.1 == old(self)@.1,
            final(self)@.2 == old(self)@.2,
            final(self)@.0 matches Some(s) && endpoint_server(
                s,
                if https { "https"@ } else { "http"@ },
                host@,
                port,
                match name {
                    Some(n) => n@,
                    None => host@,
                },
                Seq::empty(),
            ),
    {
        let scheme = if https {
            "https".to_string()
        } else {
            "http".to_string()
        };
        let uri = format_server_origin(scheme.as_str(), host.as_str(), port);
        let shown = match name {
            Some(n) => n,
            None => host.clone(),
        };
        let server = PlexServer {
            name: shown,
            host,
            port,
            uri,
            scheme,
            local: false,
            relay: false,
            machine_identifier: String::new(),
            version: String::new(),
        };
        self.server = Some(server);
    }

    /// Record which machine the installed server is; without a server,
    /// nothing changes.
    pub fn set_machine_identifier(&mut self, id: String)
        ensures
            final(self)@.1 == old(self)@.1,
            final(self)@.2 == old(self)@.2,
            match old(self)@.0 {
                None => final(self)@.0 is None,
                Some(s) => final(self)@.0 == Some(PlexServer { machine_identifier: id, ..s }),
            },
    {
        match self.server.take() {
            Some(mut s) => {
                s.machine_identifier = id;
                self.server = Some(s);
            },
            None => {},
        }
    }

    /// The origin requests go to, once a server is installed.
    pub fn server_base(&self) -> (r: Option<String>)
        ensures
            match self@.0 {
                None => r is None,
                Some(s) => r matches Some(b) && b@ == origin_of(s),
            },
    {
        match &self.server {
            Some(s) => Some(server_origin(s)),
            None => None,
        }
    }

    /// Which machine the installed server is (empty while unknown).
    pub fn server_machine_id(&self) -> (r: Option<String>)
        ensures
            match self@.0 {
                None => r is None,
                Some(s) => r matches Some(m) && m@ == s.machine_identifier@,
            },
    {
        match &self.server {
            Some(s) => Some(s.machine_identifier.clone()),
            None => None,
        }
    }

    /// Whether the installed server is on the local network.
    pub fn server_is_local(&self) -> (r: bool)
        ensures
            r == (self@.0 matches Some(s) && s.local),
    {
        match &self.server {
            Some(s) => s.local,
            None => false,
        }
    }

    pub fn auth_token_clone(&self) -> (r: String)
        ensures
            r@ == self@.1,
    {
        self.auth_token.clone()
    }

    pub fn client_identifier_clone(&self) -> (r: String)
        ensures
            r@ == self@.2,
    {
        self.client_identifier.clone()
    }
}

} // verus!
