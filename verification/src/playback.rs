//! The decisions behind an mpv launch: which arguments it gets (window state,
//! autocrop, marker skipping, the user's extra options and the re-asserted
//! IPC/title/URL block), how the stream auth include file reads, which
//! progress tracker a session gets, and how mpv's property-change events
//! update the observed window and display state.

use vstd::prelude::*;
use crate::config::{skip_policy_text, SkipPolicy};
use crate::source::copy_strings;
use crate::text::{
    chars_of, concat, is_ascii_alnum, opt_view, owned, pieces, split_pieces, str_eq, string_of,
    strings_view, trim, trim_chars, trimmed,
};

verus! {

broadcast use vstd::string::group_string_axioms;

// ---- progress targets -----------------------------------------------------

/// Everything the progress tracker needs to report back to Plex.
#[derive(Clone)]
pub struct TrackInfo {
    pub server_base: String,
    pub token: String,
    pub client_identifier: String,
    pub rating_key: String,
    pub key: String,
    pub duration_ms: u64,
}

/// What the Jellyfin/Emby progress tracker needs; auth is pre-built into
/// `headers` by the source.
#[derive(Clone)]
pub struct JellyfinTrack {
    pub base_url: String,
    pub item_id: String,
    pub media_source_id: String,
    pub play_session_id: Option<String>,
    pub headers: Vec<(String, String)>,
}

/// Where playback progress should be reported.
pub enum ProgressTarget {
    /// Report position to a Plex server's timeline.
    Plex(TrackInfo),
    /// Report position to a Jellyfin/Emby server's playback endpoints.
    Jellyfin(JellyfinTrack),
    /// No progress reporting.
    Unreported,
}

/// Which watcher a launched session gets.
#[derive(Debug, Clone, Copy, PartialEq, Eq, Structural)]
pub enum TrackingRoute {
    Plex,
    Jellyfin,
    /// Only the end-of-session watcher, no server check-ins.
    Untracked,
}

pub open spec fn route_of(p: ProgressTarget) -> TrackingRoute {
    match p {
        ProgressTarget::Plex(info) => if info.server_base@.len() > 0 {
            TrackingRoute::Plex
        } else {
            TrackingRoute::Untracked
        },
        ProgressTarget::Jellyfin(track) => if track.base_url@.len() > 0 {
            TrackingRoute::Jellyfin
        } else {
            TrackingRoute::Untracked
        },
        ProgressTarget::Unreported => TrackingRoute::Untracked,
    }
}

/// A degenerate target (empty server base) stays on the untracked path so
/// the end notifier still fires exactly once per session.
pub fn tracking_route(progress: &ProgressTarget) -> (r: TrackingRoute)
    ensures
        r == route_of(*progress),
{
    match progress {
        ProgressTarget::Plex(info) => if !info.server_base.as_str().is_empty() {
            TrackingRoute::Plex
        } else {
            TrackingRoute::Untracked
        },
        ProgressTarget::Jellyfin(track) => if !track.base_url.as_str().is_empty() {
            TrackingRoute::Jellyfin
        } else {
            TrackingRoute::Untracked
        },
        ProgressTarget::Unreported => TrackingRoute::Untracked,
    }
}

// ---- progress check-ins ----------------------------------------------------

/// A moment in a tracked session.
#[derive(Debug, Clone, Copy, PartialEq, Eq, Structural)]
pub enum TrackerEvent {
    /// The tracker is up, before the first tick.
    Started,
    /// A report tick (about every five seconds) while mpv plays.
    Tick,
    /// mpv exited or the session was replaced.
    Ended,
}

/// Plex's timeline states.
#[derive(Debug, Clone, Copy, PartialEq, Eq, Structural)]
pub enum TimelineState {
    Playing,
    Stopped,
}

/// Jellyfin/Emby's `/Sessions/Playing*` check-in endpoints.
#[derive(Debug, Clone, Copy, PartialEq, Eq, Structural)]
pub enum CheckInKind {
    Start,
    Progress,
    Stopped,
}

/// One write a tracker makes to its server.
#[derive(Debug, Clone, Copy, PartialEq, Eq, Structural)]
pub enum ServerReport {
    /// Plex `/:/timeline` with a state and position.
    PlexTimeline { state: TimelineState, position_ms: u64 },
    /// Plex `/:/progress`, the resume point.
    PlexProgress { position_ms: u64 },
    /// A Jellyfin/Emby check-in; positions in 100 ns ticks.
    CheckIn { kind: CheckInKind, position_ticks: u64, time_update: bool },
}

pub open spec fn ticks(ms: u64) -> u64 {
    crate::recents::sat_mul(ms, 10_000)
}

/// Plex reports `playing` on each tick and, when the session ends with a
/// real position, `stopped` then the resume point; a zero position writes
/// nothing at the end so an existing resume point is not clobbered.
/// Jellyfin/Emby checks in Start, then Progress per tick, then always
/// Stopped, even at zero, so no stale "now playing" session is left.
pub open spec fn reports_for(route: TrackingRoute, event: TrackerEvent, position_ms: u64) -> Seq<ServerReport> {
    match route {
        TrackingRoute::Plex => match event {
            TrackerEvent::Started => Seq::empty(),
            TrackerEvent::Tick => seq![
                ServerReport::PlexTimeline { state: TimelineState::Playing, position_ms },
            ],
            TrackerEvent::Ended => if position_ms > 0 {
                seq![
                    ServerReport::PlexTimeline { state: TimelineState::Stopped, position_ms },
                    ServerReport::PlexProgress { position_ms },
                ]
            } else {
                Seq::empty()
            },
        },
        TrackingRoute::Jellyfin => {
            let t = ticks(position_ms);
            match event {
                TrackerEvent::Started => seq![
                    ServerReport::CheckIn { kind: CheckInKind::Start, position_ticks: t, time_update: false },
                ],
                TrackerEvent::Tick => seq![
                    ServerReport::CheckIn { kind: CheckInKind::Progress, position_ticks: t, time_update: true },
                ],
                TrackerEvent::Ended => seq![
                    ServerReport::CheckIn { kind: CheckInKind::Stopped, position_ticks: t, time_update: false },
                ],
            }
        },
        TrackingRoute::Untracked => Seq::empty(),
    }
}

/// The writes a tracker makes at one moment of its session.
pub fn tracker_reports(route: TrackingRoute, event: TrackerEvent, position_ms: u64) -> (r: Vec<ServerReport>)
    ensures
        r@ == reports_for(route, event, position_ms),
{
    let mut out: Vec<ServerReport> = Vec::new();
    match route {
        TrackingRoute::Plex => match event {
            TrackerEvent::Started => {},
            TrackerEvent::Tick => {
                out.push(ServerReport::PlexTimeline { state: TimelineState::Playing, position_ms });
            },
            TrackerEvent::Ended => {
                if position_ms > 0 {
                    out.push(ServerReport::PlexTimeline { state: TimelineState::Stopped, position_ms });
                    out.push(ServerReport::PlexProgress { position_ms });
                }
            },
        },
        TrackingRoute::Jellyfin => {
            let t = crate::recents::saturating_mul(position_ms, 10_000);
            let (kind, time_update) = match event {
                TrackerEvent::Started => (CheckInKind::Start, false),
                TrackerEvent::Tick => (CheckInKind::Progress, true),
                TrackerEvent::Ended => (CheckInKind::Stopped, false),
            };
            out.push(ServerReport::CheckIn { kind, position_ticks: t, time_update });
        },
        TrackingRoute::Untracked => {},
    }
    assert(out@ =~= reports_for(route, event, position_ms));
    out
}

/// The URL a check-in posts to.
pub fn check_in_url(base_url: &str, kind: CheckInKind) -> (r: String)
    ensures
        r@ == base_url@ + "/Sessions/Playing"@ + match kind {
            CheckInKind::Start => Seq::<char>::empty(),
            CheckInKind::Progress => "/Progress"@,
            CheckInKind::Stopped => "/Stopped"@,
        },
{
    let head = concat(base_url, "/Sessions/Playing");
    match kind {
        CheckInKind::Start => {
            proof {
                assert(head@ + Seq::<char>::empty() =~= head@);
            }
            head
        },
        CheckInKind::Progress => concat(head.as_str(), "/Progress"),
        CheckInKind::Stopped => concat(head.as_str(), "/Stopped"),
    }
}

/// Whatever position a Jellyfin/Emby session ends at, its last write is a
/// Stopped check-in; a Plex session that read no position writes nothing at
/// its end.
pub proof fn law_session_end_reports(position_ms: u64)
    ensures
        reports_for(TrackingRoute::Jellyfin, TrackerEvent::Ended, position_ms).last()
            matches ServerReport::CheckIn { kind: CheckInKind::Stopped, .. },
        reports_for(TrackingRoute::Plex, TrackerEvent::Ended, 0).len() == 0,
        reports_for(TrackingRoute::Untracked, TrackerEvent::Ended, position_ms).len() == 0,
{
}

// ---- window state ---------------------------------------------------------

/// Runtime mpv window state carried to an exact automatic successor. `None`
/// means mpv has not reported the property, distinct from an explicit
/// `false`.
#[derive(Debug, Clone, Copy, Default, PartialEq, Eq, Structural)]
pub struct PlaybackWindowState {
    pub fullscreen: Option<bool>,
    pub maximized: Option<bool>,
}

pub open spec fn yes_no(b: bool) -> Seq<char> {
    if b {
        "yes"@
    } else {
        "no"@
    }
}

/// Maximized first, then fullscreen; unknown properties are omitted.
pub open spec fn window_args(s: PlaybackWindowState) -> Seq<Seq<char>> {
    let m: Seq<Seq<char>> = match s.maximized {
        Some(b) => seq!["--window-maximized="@ + yes_no(b)],
        None => Seq::empty(),
    };
    let f: Seq<Seq<char>> = match s.fullscreen {
        Some(b) => seq!["--fullscreen="@ + yes_no(b)],
        None => Seq::empty(),
    };
    m + f
}

fn yes_no_str(b: bool) -> (r: &'static str)
    ensures
        r@ == yes_no(b),
{
    if b {
        "yes"
    } else {
        "no"
    }
}

/// Explicit inherited flags, placed after user options so observed runtime
/// state wins under mpv's last-value-wins handling.
pub fn window_state_args(state: PlaybackWindowState) -> (r: Vec<String>)
    ensures
        strings_view(r@) == window_args(state),
{
    let mut args: Vec<String> = Vec::new();
    if let Some(maximized) = state.maximized {
        args.push(concat("--window-maximized=", yes_no_str(maximized)));
    }
    let ghost mid = strings_view(args@);
    if let Some(fullscreen) = state.fullscreen {
        args.push(concat("--fullscreen=", yes_no_str(fullscreen)));
    }
    assert(strings_view(args@) =~= window_args(state));
    args
}

pub open spec fn screen_arg(name: Option<Seq<char>>) -> Option<Seq<char>> {
    match name {
        Some(n) => if trim(n).len() > 0 {
            Some("--screen-name="@ + trim(n))
        } else {
            None
        },
        None => None,
    }
}

/// The output to open on, by the backend's name for it; blank names ask
/// for nothing.
pub fn screen_name_arg(name: Option<&str>) -> (r: Option<String>)
    ensures
        opt_view(r) == screen_arg(
            match name {
                Some(n) => Some(n@),
                None => None,
            },
        ),
{
    match name {
        Some(n) => {
            let t = trimmed(n);
            if !t.as_str().is_empty() {
                Some(concat("--screen-name=", t.as_str()))
            } else {
                None
            }
        },
        None => None,
    }
}

// ---- autocrop and marker scripts -----------------------------------------

pub open spec fn opt_str(o: Option<&str>) -> Option<Seq<char>> {
    match o {
        Some(s) => Some(s@),
        None => None,
    }
}

/// `off` or an unknown mode, or no stock script, loads nothing; `manual`
/// loads the stock script with its auto-crop disabled; `auto` adds the
/// trigger shim, or falls back to the stock trigger without one.
pub open spec fn autocrop(mode: Seq<char>, script: Option<Seq<char>>, shim: Option<Seq<char>>) -> Seq<
    Seq<char>,
> {
    match script {
        None => Seq::empty(),
        Some(path) => if mode == "manual"@ {
            seq!["--script="@ + path, "--script-opts-append=autocrop-auto=no"@]
        } else if mode == "auto"@ {
            match shim {
                Some(s) => seq![
                    "--script="@ + path,
                    "--script-opts-append=autocrop-auto=no"@,
                    "--script="@ + s,
                ],
                None => seq!["--script="@ + path],
            }
        } else {
            Seq::empty()
        },
    }
}

/// mpv launch arguments for the autocrop feature.
pub fn autocrop_args(mode: &str, script: Option<&str>, shim: Option<&str>) -> (r: Vec<String>)
    ensures
        strings_view(r@) == autocrop(mode@, opt_str(script), opt_str(shim)),
{
    let mut args: Vec<String> = Vec::new();
    let path = match script {
        Some(p) => p,
        None => {
            assert(strings_view(args@) =~= Seq::<Seq<char>>::empty());
            return args;
        },
    };
    if str_eq(mode, "manual") {
        args.push(concat("--script=", path));
        args.push(owned("--script-opts-append=autocrop-auto=no"));
    } else if str_eq(mode, "auto") {
        args.push(concat("--script=", path));
        if let Some(s) = shim {
            args.push(owned("--script-opts-append=autocrop-auto=no"));
            args.push(concat("--script=", s));
        }
    }
    assert(strings_view(args@) =~= autocrop(mode@, opt_str(script), opt_str(shim)));
    args
}

/// No script, no written payload, or every policy off loads nothing;
/// otherwise the script and its three policies.
pub open spec fn marker_script_args(
    script: Option<Seq<char>>,
    intro: SkipPolicy,
    credits: SkipPolicy,
    commercial: SkipPolicy,
    has_payload: bool,
) -> Seq<Seq<char>> {
    match script {
        None => Seq::empty(),
        Some(path) => if !has_payload || (intro == SkipPolicy::Off && credits == SkipPolicy::Off
            && commercial == SkipPolicy::Off) {
            Seq::empty()
        } else {
            seq![
                "--script="@ + path,
                "--script-opts-append=vela-markers-intro-policy="@ + skip_policy_text(intro),
                "--script-opts-append=vela-markers-credits-policy="@ + skip_policy_text(credits),
                "--script-opts-append=vela-markers-commercial-policy="@ + skip_policy_text(
                    commercial,
                ),
            ]
        },
    }
}

/// mpv launch arguments for marker skipping. The payload path never
/// appears here: it travels on the child's environment.
pub fn markers_args(
    script: Option<&str>,
    intro: SkipPolicy,
    credits: SkipPolicy,
    commercial: SkipPolicy,
    has_payload: bool,
) -> (r: Vec<String>)
    ensures
        strings_view(r@) == marker_script_args(
            opt_str(script),
            intro,
            credits,
            commercial,
            has_payload,
        ),
{
    let mut args: Vec<String> = Vec::new();
    let path = match script {
        Some(p) => p,
        None => {
            assert(strings_view(args@) =~= Seq::<Seq<char>>::empty());
            return args;
        },
    };
    if !has_payload || (intro.is_off() && credits.is_off() && commercial.is_off()) {
        assert(strings_view(args@) =~= Seq::<Seq<char>>::empty());
        return args;
    }
    args.push(concat("--script=", path));
    args.push(concat("--script-opts-append=vela-markers-intro-policy=", intro.as_option_value()));
    args.push(
        concat("--script-opts-append=vela-markers-credits-policy=", credits.as_option_value()),
    );
    args.push(
        concat(
            "--script-opts-append=vela-markers-commercial-policy=",
            commercial.as_option_value(),
        ),
    );
    assert(strings_view(args@) =~= marker_script_args(
        opt_str(script),
        intro,
        credits,
        commercial,
        has_payload,
    ));
    args
}

// ---- the user's extra options -------------------------------------------

/// A kept option line: not blank and not a `#` comment.
pub open spec fn option_line(l: Seq<char>) -> bool {
    l.len() > 0 && l[0] != '#'
}

/// One option per line, trimmed; blank lines and `#` comments dropped.
pub open spec fn extra_options(raw: Seq<char>) -> Seq<Seq<char>> {
    pieces(raw, '\n').map_values(|l: Seq<char>| trim(l)).filter(|l: Seq<char>| option_line(l))
}

/// Split the user's advanced mpv options into argv, one option per line.
pub fn parse_extra_mpv_args(raw: &str) -> (r: Vec<String>)
    ensures
        strings_view(r@) == extra_options(raw@),
{
    let lines = split_pieces(&chars_of(raw), '\n');
    let ghost lv = lines@.map_values(|w: Vec<char>| w@);
    let ghost tv = lv.map_values(|l: Seq<char>| trim(l));
    let ghost keep = |l: Seq<char>| option_line(l);
    let mut out: Vec<String> = Vec::new();
    let mut i: usize = 0;
    while i < lines.len()
        invariant
            i <= lines.len(),
            lv == lines@.map_values(|w: Vec<char>| w@),
            lv == pieces(raw@, '\n'),
            tv == lv.map_values(|l: Seq<char>| trim(l)),
            keep == (|l: Seq<char>| option_line(l)),
            strings_view(out@) == tv.take(i as int).filter(keep),
        decreases lines.len() - i,
    {
        proof {
            crate::seqs::lemma_filter_take_step(tv, keep, i as int);
        }
        let t = trim_chars(&lines[i]);
        assert(t@ == tv[i as int]);
        if t.len() > 0 && t[0] != '#' {
            let ghost before = strings_view(out@);
            out.push(string_of(t.as_slice()));
            assert(strings_view(out@) =~= before.push(tv[i as int]));
        }
        i += 1;
    }
    assert(tv.take(i as int) =~= tv);
    out
}

// ---- observed window and display state -----------------------------------

/// The output mpv reports its window on.
#[derive(Debug, Clone, PartialEq, Eq)]
pub struct ObservedDisplay {
    pub names: Vec<String>,
    pub width_px: Option<u32>,
    pub height_px: Option<u32>,
}

impl ObservedDisplay {
    /// Nothing reported yet.
    pub fn new() -> (r: Self)
        ensures
            r.names@.len() == 0,
            r.width_px is None,
            r.height_px is None,
    {
        ObservedDisplay { names: Vec::new(), width_px: None, height_px: None }
    }

    pub fn duplicate(&self) -> (r: Self)
        ensures
            strings_view(r.names@) == strings_view(self.names@),
            r.width_px == self.width_px,
            r.height_px == self.height_px,
    {
        ObservedDisplay {
            names: copy_strings(&self.names),
            width_px: self.width_px,
            height_px: self.height_px,
        }
    }
}

/// The `data` member of an mpv IPC message, by its JSON type.
#[derive(Debug, Clone)]
pub enum PropertyData {
    /// A JSON boolean.
    Flag(bool),
    /// A JSON number representable as `u64`.
    Count(u64),
    /// A JSON array; an element is `Some` exactly when it is a string.
    Texts(Vec<Option<String>>),
    /// Anything else, or no `data` member.
    Other,
}

/// One message read from mpv's IPC socket: its `event` and `name` members
/// when they are strings, and its `data` member.
#[derive(Debug, Clone)]
pub struct IpcMessage {
    pub event: Option<String>,
    pub name: Option<String>,
    pub data: PropertyData,
}

#[derive(Debug, Clone, Copy, PartialEq, Eq, Structural)]
pub enum WindowProperty {
    Fullscreen,
    Maximized,
}

/// A display property mpv reported.
#[derive(Debug, Clone, PartialEq, Eq)]
pub enum DisplayPropertyChange {
    Names(Vec<String>),
    Width(u32),
    Height(u32),
}

pub open spec fn is_change_event(m: IpcMessage) -> bool {
    m.event matches Some(e) && e@ == "property-change"@
}

pub open spec fn named(m: IpcMessage, n: Seq<char>) -> bool {
    m.name matches Some(x) && x@ == n
}

/// Only owned boolean property-change events of the two window
/// properties; replies, nulls and coercions invent nothing.
pub open spec fn window_change(m: IpcMessage) -> Option<(WindowProperty, bool)> {
    if !is_change_event(m) {
        None
    } else if named(m, "fullscreen"@) {
        match m.data {
            PropertyData::Flag(b) => Some((WindowProperty::Fullscreen, b)),
            _ => None,
        }
    } else if named(m, "window-maximized"@) {
        match m.data {
            PropertyData::Flag(b) => Some((WindowProperty::Maximized, b)),
            _ => None,
        }
    } else {
        None
    }
}

/// Every element a string.
pub open spec fn all_texts(v: Seq<Option<String>>) -> bool {
    forall|i: int| 0 <= i < v.len() ==> (#[trigger] v[i]) is Some
}

pub open spec fn texts_of(v: Seq<Option<String>>) -> Seq<Seq<char>> {
    v.map_values(|o: Option<String>| o.unwrap()@)
}

/// The abstract content of a display change.
pub enum DisplayChangeView {
    Names(Seq<Seq<char>>),
    Width(u32),
    Height(u32),
}

/// Only exactly typed display property-change events: a list of strings
/// for the names, a positive count that fits `u32` for the dimensions.
pub open spec fn display_change(m: IpcMessage) -> Option<DisplayChangeView> {
    if !is_change_event(m) {
        None
    } else if named(m, "display-names"@) {
        match m.data {
            PropertyData::Texts(v) => if all_texts(v@) {
                Some(DisplayChangeView::Names(texts_of(v@)))
            } else {
                None
            },
            _ => None,
        }
    } else if named(m, "display-width"@) {
        match m.data {
            PropertyData::Count(n) => if 0 < n <= u32::MAX {
                Some(DisplayChangeView::Width(n as u32))
            } else {
                None
            },
            _ => None,
        }
    } else if named(m, "display-height"@) {
        match m.data {
            PropertyData::Count(n) => if 0 < n <= u32::MAX {
                Some(DisplayChangeView::Height(n as u32))
            } else {
                None
            },
            _ => None,
        }
    } else {
        None
    }
}

impl DisplayPropertyChange {
    pub open spec fn view(self) -> DisplayChangeView {
        match self {
            DisplayPropertyChange::Names(v) => DisplayChangeView::Names(strings_view(v@)),
            DisplayPropertyChange::Width(w) => DisplayChangeView::Width(w),
            DisplayPropertyChange::Height(h) => DisplayChangeView::Height(h),
        }
    }
}

fn opt_str_eq(o: &Option<String>, lit: &str) -> (r: bool)
    ensures
        r == (o matches Some(x) && x@ == lit@),
{
    match o {
        Some(x) => str_eq(x.as_str(), lit),
        None => false,
    }
}

/// The window property an IPC message changes, if it is one.
pub fn window_property_change(m: &IpcMessage) -> (r: Option<(WindowProperty, bool)>)
    ensures
        r == window_change(*m),
{
    if !opt_str_eq(&m.event, "property-change") {
        return None;
    }
    let property = if opt_str_eq(&m.name, "fullscreen") {
        WindowProperty::Fullscreen
    } else if opt_str_eq(&m.name, "window-maximized") {
        WindowProperty::Maximized
    } else {
        return None;
    };
    match m.data {
        PropertyData::Flag(b) => Some((property, b)),
        _ => None,
    }
}

fn all_strings(v: &Vec<Option<String>>) -> (r: Option<Vec<String>>)
    ensures
        r is Some <==> all_texts(v@),
        r matches Some(w) ==> strings_view(w@) == texts_of(v@),
{
    let mut out: Vec<String> = Vec::new();
    let mut i: usize = 0;
    while i < v.len()
        invariant
            i <= v.len(),
            forall|k: int| 0 <= k < i ==> (#[trigger] v@[k]) is Some,
            strings_view(out@) == texts_of(v@.take(i as int)),
        decreases v.len() - i,
    {
        match &v[i] {
            Some(s) => {
                let ghost before = strings_view(out@);
                out.push(s.clone());
                assert(strings_view(out@) =~= before.push(s@));
                assert(v@.take(i + 1) =~= v@.take(i as int).push(v@[i as int]));
                assert(texts_of(v@.take(i + 1)) =~= texts_of(v@.take(i as int)).push(
                    v@[i as int].unwrap()@,
                ));
            },
            None => {
                return None;
            },
        }
        i += 1;
    }
    assert(v@.take(i as int) =~= v@);
    Some(out)
}

fn positive_u32(n: u64) -> (r: Option<u32>)
    ensures
        r is Some <==> 0 < n <= u32::MAX,
        r matches Some(x) ==> x == n,
{
    if 0 < n && n <= 0xFFFF_FFFFu64 {
        Some(n as u32)
    } else {
        None
    }
}

/// The display property an IPC message reports, if it is one.
pub fn display_property_change(m: &IpcMessage) -> (r: Option<DisplayPropertyChange>)
    ensures
        (r is Some) == (display_change(*m) is Some),
        r matches Some(c) ==> display_change(*m) == Some(c.view()),
{
    if !opt_str_eq(&m.event, "property-change") {
        return None;
    }
    if opt_str_eq(&m.name, "display-names") {
        match &m.data {
            PropertyData::Texts(v) => match all_strings(v) {
                Some(names) => Some(DisplayPropertyChange::Names(names)),
                None => None,
            },
            _ => None,
        }
    } else if opt_str_eq(&m.name, "display-width") {
        match m.data {
            PropertyData::Count(n) => match positive_u32(n) {
                Some(w) => Some(DisplayPropertyChange::Width(w)),
                None => None,
            },
            _ => None,
        }
    } else if opt_str_eq(&m.name, "display-height") {
        match m.data {
            PropertyData::Count(n) => match positive_u32(n) {
                Some(h) => Some(DisplayPropertyChange::Height(h)),
                None => None,
            },
            _ => None,
        }
    } else {
        None
    }
}

/// What one launch has observed of its window and display. Each launch
/// owns a fresh observation, so an older process's late events cannot
/// touch a newer session's state.
pub struct WindowStateObservation {
    pub state: PlaybackWindowState,
    pub display: ObservedDisplay,
}

/// The window state after an event.
pub open spec fn after_window_event(s: PlaybackWindowState, m: IpcMessage) -> PlaybackWindowState {
    match window_change(m) {
        Some((WindowProperty::Fullscreen, b)) => PlaybackWindowState { fullscreen: Some(b), ..s },
        Some((WindowProperty::Maximized, b)) => PlaybackWindowState { maximized: Some(b), ..s },
        None => s,
    }
}

impl WindowStateObservation {
    /// A fresh observation: nothing reported.
    pub fn new() -> (r: Self)
        ensures
            r.state.fullscreen is None,
            r.state.maximized is None,
            r.display.names@.len() == 0,
            r.display.width_px is None,
            r.display.height_px is None,
    {
        WindowStateObservation {
            state: PlaybackWindowState { fullscreen: None, maximized: None },
            display: ObservedDisplay::new(),
        }
    }

    /// The window state observed so far.
    pub fn snapshot(&self) -> (r: PlaybackWindowState)
        ensures
            r == self.state,
    {
        self.state
    }

    /// The display observed so far.
    pub fn display_snapshot(&self) -> (r: ObservedDisplay)
        ensures
            strings_view(r.names@) == strings_view(self.display.names@),
            r.width_px == self.display.width_px,
            r.height_px == self.display.height_px,
    {
        self.display.duplicate()
    }

    /// Fold one IPC message in: a window event sets exactly its property, a
    /// display event replaces exactly its field, anything else changes
    /// nothing.
    pub fn apply_ipc_event(&mut self, m: &IpcMessage)
        ensures
            final(self).state == after_window_event(old(self).state, *m),
            display_change(*m) matches Some(DisplayChangeView::Names(n))
                ==> strings_view(final(self).display.names@) == n,
            !(display_change(*m) matches Some(DisplayChangeView::Names(_)))
                ==> final(self).display.names@ == old(self).display.names@,
            final(self).display.width_px == match display_change(*m) {
                Some(DisplayChangeView::Width(w)) => Some(w),
                _ => old(self).display.width_px,
            },
            final(self).display.height_px == match display_change(*m) {
                Some(DisplayChangeView::Height(h)) => Some(h),
                _ => old(self).display.height_px,
            },
    {
        match window_property_change(m) {
            Some((WindowProperty::Fullscreen, b)) => {
                self.state.fullscreen = Some(b);
            },
            Some((WindowProperty::Maximized, b)) => {
                self.state.maximized = Some(b);
            },
            None => {},
        }
        match display_property_change(m) {
            Some(DisplayPropertyChange::Names(names)) => {
                self.display.names = names;
            },
            Some(DisplayPropertyChange::Width(w)) => {
                self.display.width_px = Some(w);
            },
            Some(DisplayPropertyChange::Height(h)) => {
                self.display.height_px = Some(h);
            },
            None => {},
        }
    }
}

// ---- the stream auth include file ----------------------------------------

/// A header name mpv's quoted conf value cannot be escaped through.
pub open spec fn valid_header_name(n: Seq<char>) -> bool {
    n.len() > 0 && forall|i: int|
        0 <= i < n.len() ==> (is_ascii_alnum(#[trigger] n[i]) || n[i] == '-' || n[i] == '_')
}

/// Printable ASCII or space, but not `"` (closes the quoting), `,` (splits
/// list entries) or `#` (mpv's comment marker).
pub open spec fn header_value_char(c: char) -> bool {
    ' ' <= c <= '~' && c != '"' && c != ',' && c != '#'
}

pub open spec fn valid_header_value(v: Seq<char>) -> bool {
    forall|i: int| 0 <= i < v.len() ==> header_value_char(#[trigger] v[i])
}

/// Which check the first refused header fails.
#[derive(Debug, Clone, Copy, PartialEq, Eq, Structural)]
pub enum HeaderFault {
    Name,
    Value,
}

/// The first refused header's fault, in order, the name checked before the
/// value.
pub open spec fn header_fault(hs: Seq<(Seq<char>, Seq<char>)>) -> Option<HeaderFault>
    decreases hs.len(),
{
    if hs.len() == 0 {
        None
    } else if !valid_header_name(hs[0].0) {
        Some(HeaderFault::Name)
    } else if !valid_header_value(hs[0].1) {
        Some(HeaderFault::Value)
    } else {
        header_fault(hs.drop_first())
    }
}

pub open spec fn headers_view(hs: Seq<(String, String)>) -> Seq<(Seq<char>, Seq<char>)> {
    hs.map_values(|p: (String, String)| (p.0@, p.1@))
}

/// `name: value` entries joined by `,` inside one quoted
/// `http-header-fields` line.
pub open spec fn include_text(hs: Seq<(Seq<char>, Seq<char>)>) -> Seq<char> {
    "http-header-fields=\""@ + crate::text::join(
        hs.map_values(|p: (Seq<char>, Seq<char>)| p.0 + ": "@ + p.1),
        ","@,
    ) + "\"\n"@
}

pub open spec fn fault_text(f: HeaderFault) -> Seq<char> {
    match f {
        HeaderFault::Name => "invalid stream auth header name"@,
        HeaderFault::Value => "invalid stream auth header value"@,
    }
}

fn name_ok(n: &str) -> (r: bool)
    ensures
        r == valid_header_name(n@),
{
    let v = chars_of(n);
    if v.len() == 0 {
        return false;
    }
    let mut i: usize = 0;
    while i < v.len()
        invariant
            i <= v.len(),
            v@ == n@,
            forall|k: int|
                0 <= k < i ==> (is_ascii_alnum(#[trigger] v@[k]) || v@[k] == '-' || v@[k] == '_'),
        decreases v.len() - i,
    {
        let c = v[i];
        if !(crate::text::char_is_alnum(c) || c == '-' || c == '_') {
            return false;
        }
        i += 1;
    }
    true
}

fn value_ok(x: &str) -> (r: bool)
    ensures
        r == valid_header_value(x@),
{
    let v = chars_of(x);
    let mut i: usize = 0;
    while i < v.len()
        invariant
            i <= v.len(),
            v@ == x@,
            forall|k: int| 0 <= k < i ==> header_value_char(#[trigger] v@[k]),
        decreases v.len() - i,
    {
        let c = v[i];
        if !(' ' <= c && c <= '~' && c != '"' && c != ',' && c != '#') {
            assert(!header_value_char(v@[i as int]));
            return false;
        }
        i += 1;
    }
    true
}

/// The include file's text, or the refusal; the error never echoes the
/// offending value (it may be a credential).
pub fn header_include_content(headers: &Vec<(String, String)>) -> (r: Result<String, String>)
    ensures
        match header_fault(headers_view(headers@)) {
            Some(f) => r matches Err(e) && e@ == fault_text(f),
            None => r matches Ok(c) && c@ == include_text(headers_view(headers@)),
        },
{
    let ghost hv = headers_view(headers@);
    let mut entries: Vec<String> = Vec::new();
    let mut i: usize = 0;
    assert(hv.subrange(0, hv.len() as int) =~= hv);
    while i < headers.len()
        invariant
            i <= headers.len(),
            hv == headers_view(headers@),
            hv.len() == headers@.len(),
            header_fault(hv) == header_fault(hv.subrange(i as int, hv.len() as int)),
            strings_view(entries@) == hv.take(i as int).map_values(
                |p: (Seq<char>, Seq<char>)| p.0 + ": "@ + p.1,
            ),
        decreases headers.len() - i,
    {
        let ghost rest = hv.subrange(i as int, hv.len() as int);
        assert(rest[0] == hv[i as int]);
        assert(rest.drop_first() =~= hv.subrange(i + 1, hv.len() as int));
        let name = &headers[i].0;
        let value = &headers[i].1;
        assert(hv[i as int] == (name@, value@));
        if !name_ok(name.as_str()) {
            return Err(owned("invalid stream auth header name"));
        }
        if !value_ok(value.as_str()) {
            return Err(owned("invalid stream auth header value"));
        }
        let head = concat(name.as_str(), ": ");
        let ghost before = strings_view(entries@);
        entries.push(concat(head.as_str(), value.as_str()));
        assert(strings_view(entries@) =~= before.push(name@ + ": "@ + value@));
        assert(hv.take(i + 1) =~= hv.take(i as int).push(hv[i as int]));
        i += 1;
        assert(strings_view(entries@) =~= hv.take(i as int).map_values(
            |p: (Seq<char>, Seq<char>)| p.0 + ": "@ + p.1,
        ));
    }
    assert(hv.take(i as int) =~= hv);
    assert(hv.subrange(i as int, hv.len() as int) =~= Seq::<(Seq<char>, Seq<char>)>::empty());
    let joined = crate::urls::join_strings(&entries, ",");
    let front = concat("http-header-fields=\"", joined.as_str());
    Ok(concat(front.as_str(), "\"\n"))
}

// ---- the launch -----------------------------------------------------------

/// Which GPU API the launch asks for.
#[derive(Debug, Clone, Copy, PartialEq, Eq, Structural)]
pub enum GpuPlatform {
    MacOs,
    Windows,
    /// Linux and the other Unixes.
    Other,
}

/// Everything an mpv launch is built from, already resolved: config
/// values, script paths that exist, whether the marker payload was written,
/// the include file's path and the formatted resume offset.
pub struct MpvLaunch {
    pub use_own_config: bool,
    pub platform: GpuPlatform,
    pub extra_args: Option<String>,
    pub autocrop_mode: Option<String>,
    pub autocrop_script: Option<String>,
    pub autocrop_shim: Option<String>,
    pub markers_script: Option<String>,
    pub intro_policy: SkipPolicy,
    pub credits_policy: SkipPolicy,
    pub commercial_policy: SkipPolicy,
    pub marker_payload_written: bool,
    pub inherited_window_state: PlaybackWindowState,
    pub screen_name: Option<String>,
    pub ipc_path: String,
    pub title: String,
    pub include_path: Option<String>,
    /// `--start` value, present only for a positive resume offset.
    pub start: Option<String>,
    pub url: String,
}

pub open spec fn gpu_api(p: GpuPlatform) -> Seq<char> {
    match p {
        GpuPlatform::Windows => "--gpu-api=d3d11"@,
        _ => "--gpu-api=vulkan"@,
    }
}

/// The render defaults every launch starts from.
pub open spec fn render_defaults() -> Seq<Seq<char>> {
    seq![
        "--no-ytdl"@,
        "--vo=gpu-next,gpu"@,
        "--profile=gpu-hq"@,
        "--hwdec=auto"@,
        "--hwdec-codecs=all"@,
        "--target-colorspace-hint=yes"@,
        "--hdr-compute-peak=yes"@,
    ]
}

/// The window title: the human title, or a neutral label for a blank one,
/// never the URL.
pub open spec fn display_title(title: Seq<char>) -> Seq<char> {
    if trim(title).len() == 0 {
        "Vela"@
    } else {
        title
    }
}

pub open spec fn opt_arg(o: Option<Seq<char>>) -> Seq<Seq<char>> {
    match o {
        Some(a) => seq![a],
        None => Seq::empty(),
    }
}

pub open spec fn prefixed(p: Seq<char>, o: Option<String>) -> Seq<Seq<char>> {
    match o {
        Some(x) => seq![p + x@],
        None => Seq::empty(),
    }
}

/// Render defaults, then the user's options, then Vela's own additions
/// (autocrop, markers, window state, screen), and last the IPC server,
/// titles, auth include, resume offset and `--` before the URL, re-asserted
/// after everything the user can set.
pub open spec fn launch_args(l: MpvLaunch) -> Seq<Seq<char>> {
    base_part(l) + feature_part(l) + tail_part(l)
}

/// `--no-config` unless the user's own config is wanted, the render
/// defaults, the GPU API, then the user's options.
pub open spec fn base_part(l: MpvLaunch) -> Seq<Seq<char>> {
    let own: Seq<Seq<char>> = if l.use_own_config {
        Seq::empty()
    } else {
        seq!["--no-config"@]
    };
    let extra: Seq<Seq<char>> = match l.extra_args {
        Some(e) => extra_options(e@),
        None => Seq::empty(),
    };
    own + render_defaults() + seq![gpu_api(l.platform)] + extra
}

/// Autocrop (mode `off` when unset), marker skipping, inherited window
/// state and the screen.
pub open spec fn feature_part(l: MpvLaunch) -> Seq<Seq<char>> {
    let mode: Seq<char> = match l.autocrop_mode {
        Some(m) => m@,
        None => "off"@,
    };
    autocrop(mode, opt_view(l.autocrop_script), opt_view(l.autocrop_shim)) + marker_script_args(
        opt_view(l.markers_script),
        l.intro_policy,
        l.credits_policy,
        l.commercial_policy,
        l.marker_payload_written,
    ) + window_args(l.inherited_window_state) + opt_arg(screen_arg(opt_view(l.screen_name)))
}

/// The block no user option can override.
pub open spec fn tail_part(l: MpvLaunch) -> Seq<Seq<char>> {
    let t = display_title(l.title@);
    seq![
        "--input-ipc-server="@ + l.ipc_path@,
        "--force-media-title="@ + t,
        "--title="@ + t,
    ] + prefixed("--include="@, l.include_path) + prefixed("--start="@, l.start) + seq![
        "--"@,
        l.url@,
    ]
}

fn opt_as_str(o: &Option<String>) -> (r: Option<&str>)
    ensures
        opt_str(r) == opt_view(*o),
{
    match o {
        Some(s) => Some(s.as_str()),
        None => None,
    }
}

fn append_args(args: &mut Vec<String>, more: Vec<String>)
    ensures
        strings_view(final(args)@) == strings_view(old(args)@) + strings_view(more@),
{
    let mut more = more;
    let ghost a = strings_view(args@);
    let ghost b = strings_view(more@);
    args.append(&mut more);
    assert(strings_view(args@) =~= a + b);
}

fn base_args(l: &MpvLaunch) -> (r: Vec<String>)
    ensures
        strings_view(r@) == base_part(*l),
{
    let mut args: Vec<String> = Vec::new();
    if !l.use_own_config {
        args.push(owned("--no-config"));
    }
    let ghost own = strings_view(args@);
    args.push(owned("--no-ytdl"));
    args.push(owned("--vo=gpu-next,gpu"));
    args.push(owned("--profile=gpu-hq"));
    args.push(owned("--hwdec=auto"));
    args.push(owned("--hwdec-codecs=all"));
    args.push(owned("--target-colorspace-hint=yes"));
    args.push(owned("--hdr-compute-peak=yes"));
    match l.platform {
        GpuPlatform::Windows => args.push(owned("--gpu-api=d3d11")),
        _ => args.push(owned("--gpu-api=vulkan")),
    }
    assert(strings_view(args@) =~= own + render_defaults() + seq![gpu_api(l.platform)]);
    if let Some(extra) = &l.extra_args {
        append_args(&mut args, parse_extra_mpv_args(extra.as_str()));
    }
    args
}

fn feature_args(l: &MpvLaunch) -> (r: Vec<String>)
    ensures
        strings_view(r@) == feature_part(*l),
{
    let mode = match &l.autocrop_mode {
        Some(m) => m.as_str(),
        None => "off",
    };
    let mut args = autocrop_args(mode, opt_as_str(&l.autocrop_script), opt_as_str(&l.autocrop_shim));
    append_args(
        &mut args,
        markers_args(
            opt_as_str(&l.markers_script),
            l.intro_policy,
            l.credits_policy,
            l.commercial_policy,
            l.marker_payload_written,
        ),
    );
    append_args(&mut args, window_state_args(l.inherited_window_state));
    let ghost before = strings_view(args@);
    if let Some(a) = screen_name_arg(opt_as_str(&l.screen_name)) {
        args.push(a);
    }
    assert(strings_view(args@) =~= before + opt_arg(screen_arg(opt_view(l.screen_name))));
    args
}

fn tail_args(l: &MpvLaunch) -> (r: Vec<String>)
    ensures
        strings_view(r@) == tail_part(*l),
{
    let mut args: Vec<String> = Vec::new();
    args.push(concat("--input-ipc-server=", l.ipc_path.as_str()));
    let t = if trimmed(l.title.as_str()).as_str().is_empty() {
        "Vela"
    } else {
        l.title.as_str()
    };
    assert(t@ == display_title(l.title@));
    args.push(concat("--force-media-title=", t));
    args.push(concat("--title=", t));
    if let Some(p) = &l.include_path {
        args.push(concat("--include=", p.as_str()));
    }
    if let Some(s) = &l.start {
        args.push(concat("--start=", s.as_str()));
    }
    args.push(owned("--"));
    args.push(l.url.clone());
    assert(strings_view(args@) =~= tail_part(*l));
    args
}

/// The full mpv argument list of one launch.
pub fn play_args(l: &MpvLaunch) -> (r: Vec<String>)
    ensures
        strings_view(r@) == launch_args(*l),
{
    let mut args = base_args(l);
    append_args(&mut args, feature_args(l));
    append_args(&mut args, tail_args(l));
    args
}

/// Whatever the user's options say, the launch ends with `--` and then the
/// URL, so the URL is never read as an option and nothing follows it.
pub proof fn law_url_ends_the_launch(l: MpvLaunch)
    ensures
        launch_args(l).len() >= 2,
        launch_args(l).last() == l.url@,
        launch_args(l)[launch_args(l).len() - 2] == "--"@,
{
    let a = launch_args(l);
    let t = tail_part(l);
    assert(a == (base_part(l) + feature_part(l)) + t);
    assert(t.len() >= 2);
    assert(t.last() == l.url@);
    assert(t[t.len() - 2] == "--"@);
}

// ---- finding mpv ----------------------------------------------------------

/// How a candidate is checked before it is used.
#[derive(Debug, Clone, Copy, PartialEq, Eq, Structural)]
pub enum Probe {
    /// It must be an existing file that runs `--version` cleanly.
    FileThatRuns,
    /// A bare name on `PATH`: it must run `--version` cleanly.
    Runs,
}

pub struct MpvCandidate {
    pub command: String,
    pub probe: Probe,
}

pub open spec fn candidates_view(v: Seq<MpvCandidate>) -> Seq<(Seq<char>, Probe)> {
    v.map_values(|c: MpvCandidate| (c.command@, c.probe))
}

/// The user's setting (trimmed, when not blank), a copy next to the app,
/// bare `mpv` on `PATH`, then the known install locations.
pub open spec fn search_order(
    configured: Option<Seq<char>>,
    bundled: Option<Seq<char>>,
    known: Seq<Seq<char>>,
) -> Seq<(Seq<char>, Probe)> {
    let c: Seq<(Seq<char>, Probe)> = match configured {
        Some(p) => if trim(p).len() > 0 {
            seq![(trim(p), Probe::FileThatRuns)]
        } else {
            Seq::empty()
        },
        None => Seq::empty(),
    };
    let b: Seq<(Seq<char>, Probe)> = match bundled {
        Some(p) => seq![(p, Probe::FileThatRuns)],
        None => Seq::empty(),
    };
    c + b + seq![("mpv"@, Probe::Runs)] + known.map_values(
        |k: Seq<char>| (k, Probe::FileThatRuns),
    )
}

/// The order in which mpv is looked for.
pub fn mpv_search_order(configured: Option<&str>, bundled: Option<&str>, known: &Vec<String>) -> (r:
    Vec<MpvCandidate>)
    ensures
        candidates_view(r@) == search_order(opt_str(configured), opt_str(bundled), strings_view(known@)),
{
    let mut out: Vec<MpvCandidate> = Vec::new();
    if let Some(p) = configured {
        let t = trimmed(p);
        if !t.as_str().is_empty() {
            out.push(MpvCandidate { command: t, probe: Probe::FileThatRuns });
        }
    }
    if let Some(b) = bundled {
        out.push(MpvCandidate { command: owned(b), probe: Probe::FileThatRuns });
    }
    out.push(MpvCandidate { command: owned("mpv"), probe: Probe::Runs });
    let ghost front = candidates_view(out@);
    let ghost kv = strings_view(known@);
    let mut i: usize = 0;
    while i < known.len()
        invariant
            i <= known.len(),
            kv == strings_view(known@),
            candidates_view(out@) == front + kv.take(i as int).map_values(
                |k: Seq<char>| (k, Probe::FileThatRuns),
            ),
        decreases known.len() - i,
    {
        let ghost before = candidates_view(out@);
        out.push(MpvCandidate { command: known[i].clone(), probe: Probe::FileThatRuns });
        assert(candidates_view(out@) =~= before.push((kv[i as int], Probe::FileThatRuns)));
        assert(kv.take(i + 1) =~= kv.take(i as int).push(kv[i as int]));
        i += 1;
        assert(candidates_view(out@) =~= front + kv.take(i as int).map_values(
            |k: Seq<char>| (k, Probe::FileThatRuns),
        ));
    }
    assert(kv.take(i as int) =~= kv);
    assert(candidates_view(out@) =~= search_order(
        opt_str(configured),
        opt_str(bundled),
        strings_view(known@),
    ));
    out
}

pub open spec fn passed() -> spec_fn(bool) -> bool {
    |b: bool| b
}

/// The first candidate whose probe passed, or none.
pub fn resolve_mpv(order: &Vec<MpvCandidate>, usable: &Vec<bool>) -> (r: Option<String>)
    requires
        usable.len() == order.len(),
    ensures
        opt_view(r) == match crate::seqs::first_match(usable@, passed()) {
            Some(i) => Some(order@[i].command@),
            None => None,
        },
{
    let mut i: usize = 0;
    while i < usable.len()
        invariant
            i <= usable.len(),
            usable.len() == order.len(),
            forall|k: int| 0 <= k < i ==> !(#[trigger] usable@[k]),
        decreases usable.len() - i,
    {
        if usable[i] {
            proof {
                crate::seqs::lemma_first_match_found(usable@, passed(), i as int);
            }
            return Some(order[i].command.clone());
        }
        i += 1;
    }
    proof {
        crate::seqs::lemma_first_match_none(usable@, passed());
    }
    None
}

} // verus!
