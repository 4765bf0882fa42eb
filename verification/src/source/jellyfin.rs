//! Jellyfin and Emby: the dialect rules, the request shapes, which media
//! source of an item to play, and how a server item becomes an [`ItemDto`].
//! Sending the requests and decoding the JSON happen outside the library.

use vstd::prelude::*;
use crate::selection::lex;
use crate::source::{namespace_key, namespaced, HubDto, ItemDto, ItemView, PlaylistDto};
use crate::text::{
    chars_of, concat, contains, lower, lower_chars, opt_view, split_once, split_once_str, str_eq,
    string_of, strings_view, to_lowercase, unicode_lower,
};
use crate::urls::{build_url, built_url, pairs_view};

verus! {

broadcast use vstd::string::group_string_axioms;

/// Error the frontend recognizes: the stored credential was rejected.
pub const RECONNECT_REQUIRED: &'static str = "RECONNECT_REQUIRED";

/// Library scans are admin-gated even where browsing works.
pub const SCAN_FORBIDDEN: &'static str = "the server refused the scan (administrator permission required)";

/// Which server dialect is spoken.
#[derive(Debug, Clone, Copy, PartialEq, Eq, Structural)]
pub enum Flavor {
    Jellyfin,
    Emby,
}

impl Flavor {
    pub fn from_kind(kind: &str) -> (r: Option<Flavor>)
        ensures
            r == (if kind@ == "jellyfin"@ {
                Some(Flavor::Jellyfin)
            } else if kind@ == "emby"@ {
                Some(Flavor::Emby)
            } else {
                None
            }),
    {
        if str_eq(kind, "jellyfin") {
            Some(Flavor::Jellyfin)
        } else if str_eq(kind, "emby") {
            Some(Flavor::Emby)
        } else {
            None
        }
    }

    pub fn kind(&self) -> (r: &'static str)
        ensures
            r@ == match self {
                Flavor::Jellyfin => "jellyfin"@,
                Flavor::Emby => "emby"@,
            },
    {
        match self {
            Flavor::Jellyfin => "jellyfin",
            Flavor::Emby => "emby",
        }
    }
}

/// Result of a successful credential exchange.
#[derive(Debug, Clone)]
pub struct Authed {
    pub token: String,
    pub user_id: String,
    pub device_id: String,
    pub server_name: String,
}

/// The `MediaBrowser ...` identity both dialects expect.
pub open spec fn device_text(platform: Seq<char>, device_id: Seq<char>, version: Seq<char>) -> Seq<
    char,
> {
    "MediaBrowser Client=\"Vela\", Device=\""@ + platform + "\", DeviceId=\""@ + device_id
        + "\", Version=\""@ + version + "\""@
}

/// The identity string for this device.
pub fn device_value(platform: &str, device_id: &str, version: &str) -> (r: String)
    ensures
        r@ == device_text(platform@, device_id@, version@),
{
    let a = concat("MediaBrowser Client=\"Vela\", Device=\"", platform);
    let b = concat(a.as_str(), "\", DeviceId=\"");
    let c = concat(b.as_str(), device_id);
    let d = concat(c.as_str(), "\", Version=\"");
    let e = concat(d.as_str(), version);
    concat(e.as_str(), "\"")
}

/// Headers of an authenticated request: the one real dialect split.
pub open spec fn auth_header_list(
    flavor: Flavor,
    platform: Seq<char>,
    device_id: Seq<char>,
    version: Seq<char>,
    token: Seq<char>,
) -> Seq<(Seq<char>, Seq<char>)> {
    match flavor {
        Flavor::Jellyfin => seq![
            (
                "Authorization"@,
                device_text(platform, device_id, version) + ", Token=\""@ + token + "\""@,
            ),
        ],
        Flavor::Emby => seq![
            ("X-Emby-Authorization"@, device_text(platform, device_id, version)),
            ("X-Emby-Token"@, token),
        ],
    }
}

/// Auth headers for an authenticated request.
pub fn auth_headers(flavor: Flavor, platform: &str, device_id: &str, version: &str, token: &str) -> (r:
    Vec<(String, String)>)
    ensures
        pairs_view(r@) == auth_header_list(flavor, platform@, device_id@, version@, token@),
{
    let mut v: Vec<(String, String)> = Vec::new();
    let dv = device_value(platform, device_id, version);
    match flavor {
        Flavor::Jellyfin => {
            let a = concat(dv.as_str(), ", Token=\"");
            let b = concat(a.as_str(), token);
            v.push(("Authorization".to_string(), concat(b.as_str(), "\"")));
        },
        Flavor::Emby => {
            v.push(("X-Emby-Authorization".to_string(), dv));
            v.push(("X-Emby-Token".to_string(), token.to_string()));
        },
    }
    assert(pairs_view(v@) =~= auth_header_list(flavor, platform@, device_id@, version@, token@));
    v
}

/// How a dialect wraps its list of server libraries.
#[derive(Debug, Clone, Copy, PartialEq, Eq, Structural)]
pub enum VfEnvelope {
    /// A bare JSON array (Jellyfin).
    Bare,
    /// An `{"Items": [...]}` wrapper (Emby).
    Items,
}

/// Each dialect's documented virtual-folders route.
pub fn vf_route(flavor: Flavor) -> (r: (&'static str, VfEnvelope))
    ensures
        r.0@ == match flavor {
            Flavor::Jellyfin => "/Library/VirtualFolders"@,
            Flavor::Emby => "/Library/VirtualFolders/Query"@,
        },
        r.1 == match flavor {
            Flavor::Jellyfin => VfEnvelope::Bare,
            Flavor::Emby => VfEnvelope::Items,
        },
{
    match flavor {
        Flavor::Jellyfin => ("/Library/VirtualFolders", VfEnvelope::Bare),
        Flavor::Emby => ("/Library/VirtualFolders/Query", VfEnvelope::Items),
    }
}

/// The query of a plain, non-destructive "scan for new files".
pub open spec fn scan_pairs() -> Seq<(Seq<char>, Seq<char>)> {
    seq![
        ("Recursive"@, "true"@),
        ("MetadataRefreshMode"@, "Default"@),
        ("ImageRefreshMode"@, "Default"@),
        ("ReplaceAllMetadata"@, "false"@),
        ("ReplaceAllImages"@, "false"@),
        ("RegenerateTrickplay"@, "false"@),
    ]
}

/// The query listing a user's video playlists.
pub open spec fn playlist_list_pairs() -> Seq<(Seq<char>, Seq<char>)> {
    seq![
        ("Recursive"@, "true"@),
        ("IncludeItemTypes"@, "Playlist"@),
        ("MediaTypes"@, "Video"@),
        ("SortBy"@, "SortName"@),
        ("SortOrder"@, "Ascending"@),
        ("Fields"@, "ChildCount"@),
    ]
}

/// Query for `POST /Items/{id}/Refresh`.
pub fn scan_query() -> (r: [(&'static str, &'static str); 6])
    ensures
        r@.map_values(|p: (&'static str, &'static str)| (p.0@, p.1@)) == scan_pairs(),
{
    let r = [
        ("Recursive", "true"),
        ("MetadataRefreshMode", "Default"),
        ("ImageRefreshMode", "Default"),
        ("ReplaceAllMetadata", "false"),
        ("ReplaceAllImages", "false"),
        ("RegenerateTrickplay", "false"),
    ];
    assert(r@.map_values(|p: (&'static str, &'static str)| (p.0@, p.1@)) =~= scan_pairs());
    r
}

/// Query listing video playlists, read-only.
pub fn playlist_list_query() -> (r: [(&'static str, &'static str); 6])
    ensures
        r@.map_values(|p: (&'static str, &'static str)| (p.0@, p.1@)) == playlist_list_pairs(),
{
    let r = [
        ("Recursive", "true"),
        ("IncludeItemTypes", "Playlist"),
        ("MediaTypes", "Video"),
        ("SortBy", "SortName"),
        ("SortOrder", "Ascending"),
        ("Fields", "ChildCount"),
    ];
    assert(r@.map_values(|p: (&'static str, &'static str)| (p.0@, p.1@)) =~= playlist_list_pairs());
    r
}

fn owned_pairs(pairs: &[(&'static str, &'static str)]) -> (r: Vec<(String, String)>)
    ensures
        pairs_view(r@) == pairs@.map_values(|p: (&'static str, &'static str)| (p.0@, p.1@)),
{
    let mut v: Vec<(String, String)> = Vec::new();
    let mut i: usize = 0;
    while i < pairs.len()
        invariant
            i <= pairs.len(),
            pairs_view(v@) == pairs@.take(i as int).map_values(
                |p: (&'static str, &'static str)| (p.0@, p.1@),
            ),
        decreases pairs.len() - i,
    {
        let (k, x) = pairs[i];
        let ghost before = v@;
        v.push((k.to_string(), x.to_string()));
        assert(pairs_view(v@) =~= pairs_view(before).push((k@, x@)));
        assert(pairs@.take(i + 1).map_values(|p: (&'static str, &'static str)| (p.0@, p.1@))
            =~= pairs@.take(i as int).map_values(|p: (&'static str, &'static str)| (p.0@, p.1@)).push(
            (k@, x@),
        ));
        i += 1;
    }
    assert(pairs@.take(i as int) =~= pairs@);
    v
}

// ---- media sources ------------------------------------------------------------

/// One stream of a media source, as the server describes it.
#[derive(Debug, Clone)]
pub struct MediaStreamInfo {
    pub stream_type: Option<String>,
    pub video_range: Option<String>,
    pub video_range_type: Option<String>,
    pub bit_rate: Option<u64>,
    pub width: Option<u32>,
    pub height: Option<u32>,
}

/// One playable copy of an item, as the server describes it.
#[derive(Debug, Clone)]
pub struct MediaSourceInfo {
    pub id: String,
    pub supports_direct_play: Option<bool>,
    pub supports_direct_stream: Option<bool>,
    pub is_remote: Option<bool>,
    pub bitrate: Option<u64>,
    pub size: Option<u64>,
    pub width: Option<u32>,
    pub height: Option<u32>,
    pub media_streams: Vec<MediaStreamInfo>,
}

/// A video range naming HDR, HLG or Dolby Vision, in any letter case.
pub open spec fn hdr_value(v: Seq<char>) -> bool {
    let l = lower(v);
    contains(l, "hdr"@) || contains(l, "hlg"@) || contains(l, "dovi"@) || contains(l, "dolby"@)
}

pub fn is_hdr_value(value: &str) -> (r: bool)
    ensures
        r == hdr_value(value@),
{
    let l = string_of(lower_chars(&chars_of(value)).as_slice());
    let s = l.as_str();
    crate::text::contains_str(s, "hdr") || crate::text::contains_str(s, "hlg")
        || crate::text::contains_str(s, "dovi") || crate::text::contains_str(s, "dolby")
}

pub open spec fn video_stream(s: MediaStreamInfo) -> bool {
    opt_view(s.stream_type) == Some("Video"@)
}

pub open spec fn hdr_stream(s: MediaStreamInfo) -> bool {
    (match s.video_range {
        Some(v) => hdr_value(v@),
        None => false,
    }) || (match s.video_range_type {
        Some(v) => hdr_value(v@),
        None => false,
    })
}

/// 2 for direct play, 1 for direct stream, 0 otherwise.
pub open spec fn direct_rank(m: MediaSourceInfo) -> int {
    if m.supports_direct_play == Some(true) {
        2
    } else if m.supports_direct_stream == Some(true) {
        1
    } else {
        0
    }
}

pub open spec fn source_hdr(m: MediaSourceInfo) -> bool {
    exists|i: int|
        0 <= i < m.media_streams.len() && video_stream(#[trigger] m.media_streams@[i]) && hdr_stream(
            m.media_streams@[i],
        )
}

/// The largest of a value over the video streams, if any stream has one.
pub open spec fn stream_max(streams: Seq<MediaStreamInfo>, field: spec_fn(MediaStreamInfo) -> Option<int>) -> Option<int>
    decreases streams.len(),
{
    if streams.len() == 0 {
        None
    } else {
        let prev = stream_max(streams.drop_last(), field);
        let s = streams.last();
        if video_stream(s) && field(s) is Some {
            match prev {
                Some(p) => if field(s)->0 > p {
                    field(s)
                } else {
                    prev
                },
                None => field(s),
            }
        } else {
            prev
        }
    }
}

pub open spec fn opt_u64(o: Option<u64>) -> Option<int> {
    match o {
        Some(x) => Some(x as int),
        None => None,
    }
}

pub open spec fn opt_u32(o: Option<u32>) -> Option<int> {
    match o {
        Some(x) => Some(x as int),
        None => None,
    }
}

/// The source's own value, else the largest among its video streams, else 0.
pub open spec fn own_or_streams(own: Option<int>, streams: Seq<MediaStreamInfo>, field: spec_fn(
    MediaStreamInfo,
) -> Option<int>) -> int {
    match own {
        Some(x) => x,
        None => match stream_max(streams, field) {
            Some(x) => x,
            None => 0,
        },
    }
}

/// The quality key copies are chosen by: direct rank, not remote, HDR,
/// height, width, bitrate, size.
pub open spec fn quality_key(m: MediaSourceInfo) -> Seq<int> {
    seq![
        direct_rank(m),
        if m.is_remote == Some(true) {
            0int
        } else {
            1int
        },
        if source_hdr(m) {
            1int
        } else {
            0int
        },
        own_or_streams(opt_u32(m.height), m.media_streams@, |s: MediaStreamInfo| opt_u32(s.height)),
        own_or_streams(opt_u32(m.width), m.media_streams@, |s: MediaStreamInfo| opt_u32(s.width)),
        own_or_streams(opt_u64(m.bitrate), m.media_streams@, |s: MediaStreamInfo| opt_u64(s.bit_rate)),
        match m.size {
            Some(x) => x as int,
            None => 0,
        },
    ]
}

/// Among the positions `0..n` satisfying `ok`, the last one with the
/// greatest key (`Iterator::max_by_key` keeps the last of equal maxima).
pub open spec fn best_of(s: Seq<MediaSourceInfo>, n: int, direct_only: bool) -> Option<int>
    decreases n,
{
    if n <= 0 {
        None
    } else {
        let prev = best_of(s, n - 1, direct_only);
        let i = n - 1;
        if direct_only && direct_rank(s[i]) == 0 {
            prev
        } else {
            match prev {
                Some(p) => if lex(quality_key(s[i]), quality_key(s[p])) >= 0 {
                    Some(i)
                } else {
                    prev
                },
                None => Some(i),
            }
        }
    }
}

/// The copy to play: the best directly playable or streamable one, else the
/// best of all.
pub open spec fn chosen_source(s: Seq<MediaSourceInfo>) -> Option<int> {
    match best_of(s, s.len() as int, true) {
        Some(i) => Some(i),
        None => best_of(s, s.len() as int, false),
    }
}

fn rank_of(m: &MediaSourceInfo) -> (r: u8)
    ensures
        r as int == direct_rank(*m),
{
    if m.supports_direct_play == Some(true) {
        2
    } else if m.supports_direct_stream == Some(true) {
        1
    } else {
        0
    }
}

fn opt_eq_str(o: &Option<String>, lit: &str) -> (r: bool)
    ensures
        r == (opt_view(*o) == Some(lit@)),
{
    match o {
        Some(s) => str_eq(s.as_str(), lit),
        None => false,
    }
}

fn stream_is_hdr(s: &MediaStreamInfo) -> (r: bool)
    ensures
        r == hdr_stream(*s),
{
    let a = match &s.video_range {
        Some(v) => is_hdr_value(v.as_str()),
        None => false,
    };
    let b = match &s.video_range_type {
        Some(v) => is_hdr_value(v.as_str()),
        None => false,
    };
    a || b
}

fn source_is_hdr(m: &MediaSourceInfo) -> (r: bool)
    ensures
        r == source_hdr(*m),
{
    let mut i: usize = 0;
    while i < m.media_streams.len()
        invariant
            i <= m.media_streams.len(),
            forall|k: int|
                0 <= k < i ==> !(video_stream(#[trigger] m.media_streams@[k]) && hdr_stream(
                    m.media_streams@[k],
                )),
        decreases m.media_streams.len() - i,
    {
        let s = &m.media_streams[i];
        if opt_eq_str(&s.stream_type, "Video") && stream_is_hdr(s) {
            return true;
        }
        i += 1;
    }
    false
}

/// The largest height, width or bitrate over the video streams.
fn streams_max(streams: &Vec<MediaStreamInfo>, which: u8) -> (r: Option<u64>)
    requires
        which < 3,
    ensures
        opt_u64(r) == stream_max(
            streams@,
            if which == 0 {
                |s: MediaStreamInfo| opt_u32(s.height)
            } else if which == 1 {
                |s: MediaStreamInfo| opt_u32(s.width)
            } else {
                |s: MediaStreamInfo| opt_u64(s.bit_rate)
            },
        ),
{
    let ghost f = if which == 0 {
        |s: MediaStreamInfo| opt_u32(s.height)
    } else if which == 1 {
        |s: MediaStreamInfo| opt_u32(s.width)
    } else {
        |s: MediaStreamInfo| opt_u64(s.bit_rate)
    };
    let mut best: Option<u64> = None;
    let mut i: usize = 0;
    while i < streams.len()
        invariant
            i <= streams.len(),
            which < 3,
            f == (if which == 0 {
                |s: MediaStreamInfo| opt_u32(s.height)
            } else if which == 1 {
                |s: MediaStreamInfo| opt_u32(s.width)
            } else {
                |s: MediaStreamInfo| opt_u64(s.bit_rate)
            }),
            opt_u64(best) == stream_max(streams@.take(i as int), f),
        decreases streams.len() - i,
    {
        let s = &streams[i];
        let ghost t = streams@.take(i + 1);
        assert(t.drop_last() =~= streams@.take(i as int));
        assert(t.last() == *s);
        let value: Option<u64> = if which == 0 {
            match s.height {
                Some(h) => Some(h as u64),
                None => None,
            }
        } else if which == 1 {
            match s.width {
                Some(w) => Some(w as u64),
                None => None,
            }
        } else {
            s.bit_rate
        };
        assert(opt_u64(value) == f(*s));
        if opt_eq_str(&s.stream_type, "Video") {
            match value {
                Some(x) => {
                    best = match best {
                        Some(p) => if x > p {
                            Some(x)
                        } else {
                            Some(p)
                        },
                        None => Some(x),
                    };
                },
                None => {},
            }
        }
        i += 1;
    }
    assert(streams@.take(i as int) =~= streams@);
    best
}

/// The quality key of a media source, as integers.
fn quality_key_of(m: &MediaSourceInfo) -> (r: Vec<i128>)
    ensures
        crate::selection::ints(r@) == quality_key(*m),
{
    let mut v: Vec<i128> = Vec::new();
    v.push(rank_of(m) as i128);
    v.push(if m.is_remote == Some(true) { 0 } else { 1 });
    v.push(if source_is_hdr(m) { 1 } else { 0 });
    let h: u64 = match m.height {
        Some(x) => x as u64,
        None => match streams_max(&m.media_streams, 0) {
            Some(x) => x,
            None => 0,
        },
    };
    let w: u64 = match m.width {
        Some(x) => x as u64,
        None => match streams_max(&m.media_streams, 1) {
            Some(x) => x,
            None => 0,
        },
    };
    let b: u64 = match m.bitrate {
        Some(x) => x,
        None => match streams_max(&m.media_streams, 2) {
            Some(x) => x,
            None => 0,
        },
    };
    v.push(h as i128);
    v.push(w as i128);
    v.push(b as i128);
    v.push(
        match m.size {
            Some(x) => x as i128,
            None => 0,
        },
    );
    assert(crate::selection::ints(v@) =~= quality_key(*m));
    v
}

fn best_index(sources: &Vec<MediaSourceInfo>, direct_only: bool) -> (r: Option<usize>)
    ensures
        crate::recents::opt_int(r) == best_of(sources@, sources.len() as int, direct_only),
        r matches Some(i) ==> i < sources.len(),
{
    let mut best: Option<usize> = None;
    let mut best_key: Vec<i128> = Vec::new();
    let mut i: usize = 0;
    while i < sources.len()
        invariant
            i <= sources.len(),
            crate::recents::opt_int(best) == best_of(sources@, i as int, direct_only),
            best matches Some(p) ==> p < i && crate::selection::ints(best_key@) == quality_key(
                sources@[p as int],
            ),
        decreases sources.len() - i,
    {
        let m = &sources[i];
        if !(direct_only && rank_of(m) == 0) {
            let k = quality_key_of(m);
            match best {
                Some(p) => {
                    if crate::selection::lex_order(&k, &best_key) >= 0 {
                        best = Some(i);
                        best_key = k;
                    }
                },
                None => {
                    best = Some(i);
                    best_key = k;
                },
            }
        }
        i += 1;
    }
    best
}

/// Which media source of an item to play: the best direct-play or
/// direct-stream copy, else the best of all; nothing for no copies.
pub fn select_media_source(sources: &Vec<MediaSourceInfo>) -> (r: Option<&MediaSourceInfo>)
    ensures
        match chosen_source(sources@) {
            Some(i) => r matches Some(m) && *m == sources@[i],
            None => r is None,
        },
{
    let found = match best_index(sources, true) {
        Some(i) => Some(i),
        None => best_index(sources, false),
    };
    match found {
        Some(i) => Some(&sources[i]),
        None => None,
    }
}

// ---- items --------------------------------------------------------------------

/// 100 ns ticks as milliseconds, never negative.
pub open spec fn ticks_ms(ticks: i64) -> int {
    if ticks >= 0 {
        ticks as int / 10_000
    } else {
        0
    }
}

/// 100 ns ticks as milliseconds.
pub fn ticks_to_ms(ticks: i64) -> (r: u64)
    ensures
        r as int == ticks_ms(ticks),
{
    if ticks < 0 {
        0
    } else {
        (ticks / 10_000) as u64
    }
}

/// The library type names of a server item type.
pub open spec fn media_type_of(t: Option<Seq<char>>) -> Option<Seq<char>> {
    let v = match t {
        Some(x) => x,
        None => Seq::empty(),
    };
    if v == "Movie"@ {
        Some("movie"@)
    } else if v == "Series"@ {
        Some("show"@)
    } else if v == "Season"@ {
        Some("season"@)
    } else if v == "Episode"@ {
        Some("episode"@)
    } else if v.len() == 0 {
        None
    } else {
        Some(unicode_lower(v))
    }
}

/// Map a server item type to the library's media type.
pub fn map_type(t: Option<&str>) -> (r: Option<String>)
    ensures
        opt_view(r) == media_type_of(
            match t {
                Some(x) => Some(x@),
                None => None,
            },
        ),
{
    let ghost tv: Option<Seq<char>> = match t {
        Some(x) => Some(x@),
        None => None,
    };
    let v: &str = match t {
        Some(x) => x,
        None => "",
    };
    proof {
        reveal_strlit("");
        assert(v@ == match tv {
            Some(x) => x,
            None => Seq::<char>::empty(),
        });
    }
    if str_eq(v, "Movie") {
        Some("movie".to_string())
    } else if str_eq(v, "Series") {
        Some("show".to_string())
    } else if str_eq(v, "Season") {
        Some("season".to_string())
    } else if str_eq(v, "Episode") {
        Some("episode".to_string())
    } else if v.is_empty() {
        None
    } else {
        Some(to_lowercase(v))
    }
}

/// A playlist holds video unless the server says otherwise.
pub open spec fn video_playlist(media_type: Option<Seq<char>>) -> bool {
    match media_type {
        Some(k) => lower(k) == "video"@,
        None => true,
    }
}

pub fn is_video_playlist(media_type: Option<&str>) -> (r: bool)
    ensures
        r == video_playlist(
            match media_type {
                Some(x) => Some(x@),
                None => None,
            },
        ),
{
    match media_type {
        Some(k) => {
            let l = string_of(lower_chars(&chars_of(k)).as_slice());
            str_eq(l.as_str(), "video")
        },
        None => true,
    }
}

/// The server's SortBy for the UI's sort field.
pub open spec fn sort_by_name(field: Seq<char>) -> Seq<char> {
    if field == "year"@ {
        "ProductionYear,PremiereDate"@
    } else if field == "addedAt"@ {
        "DateCreated"@
    } else if field == "episodeAddedAt"@ {
        "DateLastContentAdded"@
    } else if field == "originallyAvailableAt"@ {
        "PremiereDate"@
    } else if field == "rating"@ {
        "CommunityRating"@
    } else if field == "lastViewedAt"@ {
        "DatePlayed"@
    } else {
        "SortName"@
    }
}

/// The UI's `field:direction` sort token as the server's SortBy/SortOrder.
pub open spec fn sort_pair(sort: Option<Seq<char>>) -> (Seq<char>, Seq<char>) {
    let s = match sort {
        Some(x) => x,
        None => "titleSort:asc"@,
    };
    let (field, dir) = match split_once(s, ':') {
        Some(p) => p,
        None => (s, "asc"@),
    };
    (
        sort_by_name(field),
        if lower(dir) == "desc"@ {
            "Descending"@
        } else {
            "Ascending"@
        },
    )
}

/// Translate the UI's Plex-style sort token to SortBy/SortOrder.
pub fn map_sort(sort: Option<&str>) -> (r: (String, String))
    ensures
        (r.0@, r.1@) == sort_pair(
            match sort {
                Some(x) => Some(x@),
                None => None,
            },
        ),
{
    let s: String = match sort {
        Some(x) => x.to_string(),
        None => "titleSort:asc".to_string(),
    };
    let (field, dir) = match split_once_str(s.as_str(), ':') {
        Some((f, d)) => (f, d),
        None => (s.clone(), "asc".to_string()),
    };
    let f = field.as_str();
    let by = if str_eq(f, "year") {
        "ProductionYear,PremiereDate"
    } else if str_eq(f, "addedAt") {
        "DateCreated"
    } else if str_eq(f, "episodeAddedAt") {
        "DateLastContentAdded"
    } else if str_eq(f, "originallyAvailableAt") {
        "PremiereDate"
    } else if str_eq(f, "rating") {
        "CommunityRating"
    } else if str_eq(f, "lastViewedAt") {
        "DatePlayed"
    } else {
        "SortName"
    };
    let l = string_of(lower_chars(&chars_of(dir.as_str())).as_slice());
    let order = if str_eq(l.as_str(), "desc") {
        "Descending"
    } else {
        "Ascending"
    };
    (by.to_string(), order.to_string())
}

/// What a server item says, as the library reads it.
#[derive(Debug, Clone, Default)]
pub struct BaseItem {
    pub id: String,
    pub name: Option<String>,
    pub production_year: Option<u32>,
    pub overview: Option<String>,
    pub run_time_ticks: Option<i64>,
    pub item_type: Option<String>,
    pub user_data: Option<UserData>,
    pub index_number: Option<u32>,
    pub parent_index_number: Option<u32>,
    pub series_name: Option<String>,
    pub season_name: Option<String>,
    pub series_id: Option<String>,
    pub season_id: Option<String>,
    pub series_primary_image_tag: Option<String>,
    pub backdrop_image_tags: Option<Vec<String>>,
    pub image_tags: Option<ImageTags>,
    pub collection_type: Option<String>,
    pub media_type: Option<String>,
    pub child_count: Option<usize>,
    /// Provider ids as (provider, id) pairs, in the order the server sent.
    pub provider_ids: Option<Vec<(String, String)>>,
}

/// The user's state of an item.
#[derive(Debug, Clone, Default)]
pub struct UserData {
    pub playback_position_ticks: Option<i64>,
    pub played: Option<bool>,
}

/// An item's image tags.
#[derive(Debug, Clone, Default)]
pub struct ImageTags {
    pub primary: Option<String>,
}

/// A connected server: where it is and the credential requests carry.
#[derive(Debug, Clone)]
pub struct JellyfinClient {
    pub flavor: Flavor,
    /// Without trailing `/`.
    pub base_url: String,
    pub device_id: String,
    pub token: String,
    pub user_id: String,
}

/// The URL of an image of an item at a size.
pub open spec fn image_url(
    base: Seq<char>,
    item_id: Seq<char>,
    kind: Seq<Seq<char>>,
    height: Seq<char>,
    width: Seq<char>,
    tag: Seq<char>,
    token: Seq<char>,
) -> Seq<char> {
    built_url(
        base,
        seq!["Items"@, item_id] + kind,
        seq![
            ("fillHeight"@, height),
            ("fillWidth"@, width),
            ("tag"@, tag),
            ("api_key"@, token),
        ],
    )
}

impl JellyfinClient {
    pub fn new(flavor: Flavor, base_url: &str, device_id: &str, token: &str, user_id: &str) -> (r:
        Self)
        ensures
            r.flavor == flavor,
            r.base_url@ == crate::source::local::strip_slashes(base_url@),
            r.device_id@ == device_id@,
            r.token@ == token@,
            r.user_id@ == user_id@,
    {
        let b = crate::source::local::strip_slashes_chars(&chars_of(base_url));
        JellyfinClient {
            flavor,
            base_url: string_of(b.as_slice()),
            device_id: device_id.to_string(),
            token: token.to_string(),
            user_id: user_id.to_string(),
        }
    }

    fn image(&self, item_id: &str, kind: Vec<String>, height: &str, width: &str, tag: &str) -> (r: String)
        ensures
            r@ == image_url(self.base_url@, item_id@, strings_view(kind@), height@, width@, tag@, self.token@),
    {
        let mut segs: Vec<String> = Vec::new();
        segs.push("Items".to_string());
        segs.push(item_id.to_string());
        let mut i: usize = 0;
        while i < kind.len()
            invariant
                i <= kind.len(),
                strings_view(segs@) == seq!["Items"@, item_id@] + strings_view(kind@).take(i as int),
            decreases kind.len() - i,
        {
            let ghost before = strings_view(segs@);
            segs.push(kind[i].clone());
            assert(strings_view(segs@) =~= before.push(kind@[i as int]@));
            assert(strings_view(kind@).take(i + 1) =~= strings_view(kind@).take(i as int).push(
                kind@[i as int]@,
            ));
            i += 1;
        }
        assert(strings_view(kind@).take(i as int) =~= strings_view(kind@));
        let mut pairs: Vec<(String, String)> = Vec::new();
        pairs.push(("fillHeight".to_string(), height.to_string()));
        pairs.push(("fillWidth".to_string(), width.to_string()));
        pairs.push(("tag".to_string(), tag.to_string()));
        pairs.push(("api_key".to_string(), self.token.clone()));
        assert(pairs_view(pairs@) =~= seq![
            ("fillHeight"@, height@),
            ("fillWidth"@, width@),
            ("tag"@, tag@),
            ("api_key"@, self.token@),
        ]);
        build_url(self.base_url.as_str(), &segs, &pairs)
    }

    /// A poster at grid size.
    pub fn poster_url(&self, item_id: &str, tag: &str) -> (r: String)
        ensures
            r@ == image_url(
                self.base_url@,
                item_id@,
                seq!["Images"@, "Primary"@],
                "450"@,
                "300"@,
                tag@,
                self.token@,
            ),
    {
        let mut k: Vec<String> = Vec::new();
        k.push("Images".to_string());
        k.push("Primary".to_string());
        assert(strings_view(k@) =~= seq!["Images"@, "Primary"@]);
        self.image(item_id, k, "450", "300", tag)
    }

    /// A landscape backdrop at hero resolution.
    pub fn backdrop_url(&self, item_id: &str, tag: &str) -> (r: String)
        ensures
            r@ == image_url(
                self.base_url@,
                item_id@,
                seq!["Images"@, "Backdrop"@, "0"@],
                "1080"@,
                "1920"@,
                tag@,
                self.token@,
            ),
    {
        let mut k: Vec<String> = Vec::new();
        k.push("Images".to_string());
        k.push("Backdrop".to_string());
        k.push("0".to_string());
        assert(strings_view(k@) =~= seq!["Images"@, "Backdrop"@, "0"@]);
        self.image(item_id, k, "1080", "1920", tag)
    }

    /// An episode's still at hero resolution.
    pub fn hero_still_url(&self, item_id: &str, tag: &str) -> (r: String)
        ensures
            r@ == image_url(
                self.base_url@,
                item_id@,
                seq!["Images"@, "Primary"@],
                "1080"@,
                "1920"@,
                tag@,
                self.token@,
            ),
    {
        let mut k: Vec<String> = Vec::new();
        k.push("Images".to_string());
        k.push("Primary".to_string());
        assert(strings_view(k@) =~= seq!["Images"@, "Primary"@]);
        self.image(item_id, k, "1080", "1920", tag)
    }

    /// The scan trigger URL of a library; ids that would change the path's
    /// shape are refused.
    pub fn scan_url(&self, item_id: &str) -> (r: Result<String, String>)
        ensures
            (item_id@.len() == 0 || item_id@ == "."@ || item_id@ == ".."@) ==> (r matches Err(m)
                && m@ == "invalid library id"@),
            !(item_id@.len() == 0 || item_id@ == "."@ || item_id@ == ".."@) ==> (r matches Ok(u)
                && u@ == built_url(self.base_url@, seq!["Items"@, item_id@, "Refresh"@], scan_pairs())),
    {
        if item_id.is_empty() || str_eq(item_id, ".") || str_eq(item_id, "..") {
            return Err("invalid library id".to_string());
        }
        let mut segs: Vec<String> = Vec::new();
        segs.push("Items".to_string());
        segs.push(item_id.to_string());
        segs.push("Refresh".to_string());
        assert(strings_view(segs@) =~= seq!["Items"@, item_id@, "Refresh"@]);
        let q = scan_query();
        let pairs = owned_pairs(&q);
        Ok(build_url(self.base_url.as_str(), &segs, &pairs))
    }

    /// One page of a playlist's items; ids that would change the path's
    /// shape are refused.
    pub fn playlist_items_url(&self, playlist_id: &str, start: usize, size: usize) -> (r: Result<
        String,
        String,
    >)
        ensures
            (playlist_id@.len() == 0 || playlist_id@ == "."@ || playlist_id@ == ".."@) ==> (r matches Err(
                m,
            ) && m@ == "invalid playlist id"@),
            !(playlist_id@.len() == 0 || playlist_id@ == "."@ || playlist_id@ == ".."@) ==> (r matches Ok(
                u,
            ) && u@ == built_url(
                self.base_url@,
                seq!["Playlists"@, playlist_id@, "Items"@],
                seq![
                    ("UserId"@, self.user_id@),
                    ("Fields"@, "Overview,ProviderIds"@),
                    ("EnableUserData"@, "true"@),
                    ("StartIndex"@, crate::text::decimal(start as nat)),
                    ("Limit"@, crate::text::decimal(size as nat)),
                ],
            )),
    {
        if playlist_id.is_empty() || str_eq(playlist_id, ".") || str_eq(playlist_id, "..") {
            return Err("invalid playlist id".to_string());
        }
        let mut segs: Vec<String> = Vec::new();
        segs.push("Playlists".to_string());
        segs.push(playlist_id.to_string());
        segs.push("Items".to_string());
        assert(strings_view(segs@) =~= seq!["Playlists"@, playlist_id@, "Items"@]);
        let mut pairs: Vec<(String, String)> = Vec::new();
        pairs.push(("UserId".to_string(), self.user_id.clone()));
        pairs.push(("Fields".to_string(), "Overview,ProviderIds".to_string()));
        pairs.push(("EnableUserData".to_string(), "true".to_string()));
        pairs.push(("StartIndex".to_string(), crate::text::decimal_string(start as u64)));
        pairs.push(("Limit".to_string(), crate::text::decimal_string(size as u64)));
        assert(pairs_view(pairs@) =~= seq![
            ("UserId"@, self.user_id@),
            ("Fields"@, "Overview,ProviderIds"@),
            ("EnableUserData"@, "true"@),
            ("StartIndex"@, crate::text::decimal(start as nat)),
            ("Limit"@, crate::text::decimal(size as nat)),
        ]);
        Ok(build_url(self.base_url.as_str(), &segs, &pairs))
    }

    /// The direct stream URL of a media source.
    pub fn stream_url(&self, item_id: &str, media_source_id: &str, play_session_id: Option<&str>) -> (r:
        String)
        ensures
            r@ == built_url(
                self.base_url@,
                seq!["Videos"@, item_id@, "stream"@],
                seq![
                    ("static"@, "true"@),
                    ("mediaSourceId"@, media_source_id@),
                    ("deviceId"@, self.device_id@),
                    ("api_key"@, self.token@),
                ] + match play_session_id {
                    Some(p) => seq![("PlaySessionId"@, p@)],
                    None => Seq::empty(),
                },
            ),
    {
        let mut segs: Vec<String> = Vec::new();
        segs.push("Videos".to_string());
        segs.push(item_id.to_string());
        segs.push("stream".to_string());
        assert(strings_view(segs@) =~= seq!["Videos"@, item_id@, "stream"@]);
        let mut pairs: Vec<(String, String)> = Vec::new();
        pairs.push(("static".to_string(), "true".to_string()));
        pairs.push(("mediaSourceId".to_string(), media_source_id.to_string()));
        pairs.push(("deviceId".to_string(), self.device_id.clone()));
        pairs.push(("api_key".to_string(), self.token.clone()));
        match play_session_id {
            Some(p) => pairs.push(("PlaySessionId".to_string(), p.to_string())),
            None => {},
        }
        assert(pairs_view(pairs@) =~= seq![
            ("static"@, "true"@),
            ("mediaSourceId"@, media_source_id@),
            ("deviceId"@, self.device_id@),
            ("api_key"@, self.token@),
        ] + match play_session_id {
            Some(p) => seq![("PlaySessionId"@, p@)],
            None => Seq::empty(),
        });
        build_url(self.base_url.as_str(), &segs, &pairs)
    }

    /// The path listing the user's items.
    pub fn user_items_path(&self) -> (r: String)
        ensures
            r@ == "/Users/"@ + self.user_id@ + "/Items"@,
    {
        let a = concat("/Users/", self.user_id.as_str());
        concat(a.as_str(), "/Items")
    }
}

/// A configured Jellyfin/Emby source.
#[derive(Debug, Clone)]
pub struct JellyfinSource {
    pub id: String,
    pub name: String,
    pub client: JellyfinClient,
}

/// A home rail of a source: its title, identifier and the source's items.
pub open spec fn rail_of(
    h: HubDto,
    src: JellyfinSource,
    title: Seq<char>,
    id: Seq<char>,
    items: Seq<BaseItem>,
) -> bool {
    &&& h.title@ == title
    &&& h.hub_identifier@ == id
    &&& h.hub_type@ == "video"@
    &&& h.source_id@ == src.id@
    &&& h.source_name@ == src.name@
    &&& h.items@.len() == items.len()
    &&& forall|k: int| 0 <= k < items.len() ==> (#[trigger] h.items@[k])@ == item_of(src, items[k])
}

pub open spec fn opt_str_is(o: Option<String>, lit: Seq<char>) -> bool {
    opt_view(o) == Some(lit)
}

pub open spec fn poster_of(c: JellyfinClient, id: Seq<char>, tag: Seq<char>) -> Seq<char> {
    image_url(c.base_url@, id, seq!["Images"@, "Primary"@], "450"@, "300"@, tag, c.token@)
}

pub open spec fn primary_tag(item: BaseItem) -> Option<String> {
    match item.image_tags {
        Some(t) => t.primary,
        None => None,
    }
}

/// The provider ids as `provider:id` pairs, the provider in lowercase,
/// empty ids skipped.
pub open spec fn provider_list(pairs: Seq<(String, String)>) -> Seq<Seq<char>>
    decreases pairs.len(),
{
    if pairs.len() == 0 {
        Seq::empty()
    } else {
        let prev = provider_list(pairs.drop_last());
        let (k, v) = pairs.last();
        if v@.len() > 0 {
            prev.push(unicode_lower(k@) + ":"@ + v@)
        } else {
            prev
        }
    }
}

/// How a server item reads as a library item.
pub open spec fn item_of(src: JellyfinSource, item: BaseItem) -> ItemView {
    let c = src.client;
    let is_episode = opt_str_is(item.item_type, "Episode"@);
    let is_season = opt_str_is(item.item_type, "Season"@);
    ItemView {
        rating_key: namespaced(src.id@, item.id@),
        title: match item.name {
            Some(n) => n@,
            None => Seq::empty(),
        },
        year: item.production_year,
        summary: opt_view(item.overview),
        duration_ms: match item.run_time_ticks {
            Some(t) => Some(ticks_ms(t) as u64),
            None => None,
        },
        media_type: media_type_of(opt_view(item.item_type)),
        poster: match primary_tag(item) {
            Some(tag) => Some(poster_of(c, item.id@, tag@)),
            None => None,
        },
        series_poster: match (item.series_id, item.series_primary_image_tag) {
            (Some(sid), Some(tag)) => Some(poster_of(c, sid@, tag@)),
            _ => None,
        },
        backdrop: match item.backdrop_image_tags {
            Some(tags) if tags.len() > 0 => Some(
                image_url(
                    c.base_url@,
                    item.id@,
                    seq!["Images"@, "Backdrop"@, "0"@],
                    "1080"@,
                    "1920"@,
                    tags@[0]@,
                    c.token@,
                ),
            ),
            _ => if is_episode {
                match primary_tag(item) {
                    Some(tag) => Some(
                        image_url(
                            c.base_url@,
                            item.id@,
                            seq!["Images"@, "Primary"@],
                            "1080"@,
                            "1920"@,
                            tag@,
                            c.token@,
                        ),
                    ),
                    None => None,
                }
            } else {
                None
            },
        },
        view_offset_ms: match item.user_data {
            Some(u) => match u.playback_position_ticks {
                Some(t) => if t > 0 {
                    Some(ticks_ms(t) as u64)
                } else {
                    None
                },
                None => None,
            },
            None => None,
        },
        played: match item.user_data {
            Some(u) => u.played,
            None => None,
        },
        last_watched_at_ms: None,
        added_at_ms: None,
        index: item.index_number,
        parent_index: item.parent_index_number,
        grandparent_title: opt_view(item.series_name),
        parent_title: opt_view(item.season_name),
        parent_rating_key: if is_episode {
            match item.season_id {
                Some(k) => Some(namespaced(src.id@, k@)),
                None => None,
            }
        } else if is_season {
            match item.series_id {
                Some(k) => Some(namespaced(src.id@, k@)),
                None => None,
            }
        } else {
            None
        },
        grandparent_rating_key: if is_episode {
            match item.series_id {
                Some(k) => Some(namespaced(src.id@, k@)),
                None => None,
            }
        } else {
            None
        },
        source_id: src.id@,
        provider_ids: match item.provider_ids {
            Some(p) => provider_list(p@),
            None => Seq::empty(),
        },
        backing: None,
        canonical_id: None,
        watch_key: None,
        detail_key: None,
    }
}

fn provider_ids_of(pairs: &Vec<(String, String)>) -> (r: Vec<String>)
    ensures
        strings_view(r@) == provider_list(pairs@),
{
    let mut out: Vec<String> = Vec::new();
    let mut i: usize = 0;
    while i < pairs.len()
        invariant
            i <= pairs.len(),
            strings_view(out@) == provider_list(pairs@.take(i as int)),
        decreases pairs.len() - i,
    {
        let ghost t = pairs@.take(i + 1);
        assert(t.drop_last() =~= pairs@.take(i as int));
        assert(t.last() == pairs@[i as int]);
        let (k, v) = &pairs[i];
        if !v.as_str().is_empty() {
            let lk = to_lowercase(k.as_str());
            let a = concat(lk.as_str(), ":");
            let ghost before = strings_view(out@);
            out.push(concat(a.as_str(), v.as_str()));
            assert(strings_view(out@) =~= before.push(unicode_lower(k@) + ":"@ + v@));
        }
        i += 1;
    }
    assert(pairs@.take(i as int) =~= pairs@);
    out
}

fn namespaced_opt(source_id: &str, k: &Option<String>) -> (r: Option<String>)
    ensures
        opt_view(r) == match *k {
            Some(x) => Some(namespaced(source_id@, x@)),
            None => None,
        },
{
    match k {
        Some(x) => Some(namespace_key(source_id, x.as_str())),
        None => None,
    }
}

impl JellyfinSource {
    pub fn new(id: &str, name: &str, client: JellyfinClient) -> (r: Self)
        ensures
            r.id@ == id@,
            r.name@ == name@,
            r.client == client,
    {
        JellyfinSource { id: id.to_string(), name: name.to_string(), client }
    }

    /// A server item as a library item: keys namespaced by this source, an
    /// episode's season and series (a season's series) as its containers,
    /// artwork as sized image URLs.
    pub fn to_item(&self, item: &BaseItem) -> (r: ItemDto)
        ensures
            r@ == item_of(*self, *item),
    {
        let c = &self.client;
        let primary: Option<String> = match &item.image_tags {
            Some(t) => crate::source::copy_opt(&t.primary),
            None => None,
        };
        let poster = match &primary {
            Some(tag) => Some(c.poster_url(item.id.as_str(), tag.as_str())),
            None => None,
        };
        let series_poster = match (&item.series_id, &item.series_primary_image_tag) {
            (Some(sid), Some(tag)) => Some(c.poster_url(sid.as_str(), tag.as_str())),
            _ => None,
        };
        let is_episode = match &item.item_type {
            Some(t) => str_eq(t.as_str(), "Episode"),
            None => false,
        };
        let is_season = match &item.item_type {
            Some(t) => str_eq(t.as_str(), "Season"),
            None => false,
        };
        let first_backdrop: Option<String> = match &item.backdrop_image_tags {
            Some(tags) => if tags.len() > 0 {
                Some(tags[0].clone())
            } else {
                None
            },
            None => None,
        };
        let backdrop = match &first_backdrop {
            Some(tag) => Some(c.backdrop_url(item.id.as_str(), tag.as_str())),
            None => if is_episode {
                match &primary {
                    Some(tag) => Some(c.hero_still_url(item.id.as_str(), tag.as_str())),
                    None => None,
                }
            } else {
                None
            },
        };
        let view_offset_ms = match &item.user_data {
            Some(u) => match u.playback_position_ticks {
                Some(t) => if t > 0 {
                    Some(ticks_to_ms(t))
                } else {
                    None
                },
                None => None,
            },
            None => None,
        };
        let played = match &item.user_data {
            Some(u) => u.played,
            None => None,
        };
        let parent_rating_key = if is_episode {
            namespaced_opt(self.id.as_str(), &item.season_id)
        } else if is_season {
            namespaced_opt(self.id.as_str(), &item.series_id)
        } else {
            None
        };
        let grandparent_rating_key = if is_episode {
            namespaced_opt(self.id.as_str(), &item.series_id)
        } else {
            None
        };
        let provider_ids = match &item.provider_ids {
            Some(p) => provider_ids_of(p),
            None => Vec::new(),
        };
        let r = ItemDto {
            rating_key: namespace_key(self.id.as_str(), item.id.as_str()),
            title: match &item.name {
                Some(n) => n.clone(),
                None => String::new(),
            },
            year: item.production_year,
            summary: crate::source::copy_opt(&item.overview),
            duration_ms: match item.run_time_ticks {
                Some(t) => Some(ticks_to_ms(t)),
                None => None,
            },
            media_type: map_type(
                match &item.item_type {
                    Some(t) => Some(t.as_str()),
                    None => None,
                },
            ),
            poster,
            series_poster,
            backdrop,
            view_offset_ms,
            played,
            last_watched_at_ms: None,
            added_at_ms: None,
            index: item.index_number,
            parent_index: item.parent_index_number,
            grandparent_title: crate::source::copy_opt(&item.series_name),
            parent_title: crate::source::copy_opt(&item.season_name),
            parent_rating_key,
            grandparent_rating_key,
            source_id: self.id.clone(),
            provider_ids,
            backing: None,
            canonical_id: None,
            watch_key: None,
            detail_key: None,
        };
        proof {
            if item.provider_ids is None {
                assert(strings_view(r.provider_ids@) =~= Seq::<Seq<char>>::empty());
            }
        }
        r
    }

    /// Server items as library items of this source, in order.
    fn items_of(&self, items: &Vec<BaseItem>) -> (r: Vec<ItemDto>)
        ensures
            r@.len() == items@.len(),
            forall|k: int| 0 <= k < items@.len() ==> (#[trigger] r@[k])@ == item_of(*self, items@[k]),
    {
        let mut out: Vec<ItemDto> = Vec::new();
        let mut i: usize = 0;
        while i < items.len()
            invariant
                i <= items.len(),
                out@.len() == i,
                forall|k: int| 0 <= k < i ==> (#[trigger] out@[k])@ == item_of(*self, items@[k]),
            decreases items.len() - i,
        {
            out.push(self.to_item(&items[i]));
            i += 1;
        }
        out
    }

    /// The home rails: Continue Watching from the resume list, then Recently
    /// Added from the latest list, each only when it has items.
    pub fn home_hubs(&self, resume: &Vec<BaseItem>, latest: &Vec<BaseItem>) -> (r: Vec<HubDto>)
        ensures
            r@.len() == (if resume@.len() > 0 {
                1int
            } else {
                0
            }) + (if latest@.len() > 0 {
                1int
            } else {
                0
            }),
            resume@.len() > 0 ==> rail_of(r@[0], *self, "Continue Watching"@, "resume"@, resume@),
            latest@.len() > 0 ==> rail_of(
                r@[r@.len() - 1],
                *self,
                "Recently Added"@,
                "latest"@,
                latest@,
            ),
    {
        let mut hubs: Vec<HubDto> = Vec::new();
        if resume.len() > 0 {
            hubs.push(HubDto {
                title: "Continue Watching".to_string(),
                hub_identifier: "resume".to_string(),
                hub_type: "video".to_string(),
                items: self.items_of(resume),
                source_id: self.id.clone(),
                source_name: self.name.clone(),
            });
        }
        if latest.len() > 0 {
            hubs.push(HubDto {
                title: "Recently Added".to_string(),
                hub_identifier: "latest".to_string(),
                hub_type: "video".to_string(),
                items: self.items_of(latest),
                source_id: self.id.clone(),
                source_name: self.name.clone(),
            });
        }
        hubs
    }

    /// A server playlist as a library playlist.
    pub fn to_playlist(&self, item: &BaseItem) -> (r: PlaylistDto)
        ensures
            r.key@ == namespaced(self.id@, item.id@),
            r.title@ == match item.name {
                Some(n) => n@,
                None => Seq::empty(),
            },
            r.item_count == item.child_count,
            r.source_id == self.id,
            r.source_name == self.name,
    {
        PlaylistDto {
            key: namespace_key(self.id.as_str(), item.id.as_str()),
            title: match &item.name {
                Some(n) => n.clone(),
                None => String::new(),
            },
            item_count: item.child_count,
            source_id: self.id.clone(),
            source_name: self.name.clone(),
        }
    }
}

} // verus!
