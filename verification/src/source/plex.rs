//! The Plex source's own rules: which server a source stays bound to, when a
//! rebind voids the keys already handed out, when a library scan may run,
//! and the small request and media-type rules around them.

use vstd::prelude::*;
use crate::config::{AppConfig, SourceConfig};
use crate::plex_library::{
    edl_entries, edl_entry, endpoint_server, PlexLibrary, PlexLibraryView, PlexPlaylist, PlexServer,
};
use crate::source::{namespace_key, namespaced, PlaylistDto};
use crate::urls::{parse_connection, url_connection};
use crate::text::{
    all_digits, chars_of, concat, contains, lower, lower_chars, opt_view, str_eq, string_of, trim,
    trimmed,
};

verus! {

broadcast use vstd::string::group_string_axioms;

/// A Plex `videoDynamicRange`/`videoProfile` naming an HDR variant.
pub open spec fn hdr_range(v: Seq<char>) -> bool {
    let l = lower(v);
    contains(l, "hdr"@) || contains(l, "dolby"@) || contains(l, "dovi"@) || contains(l, "hlg"@)
        || contains(l, "pq"@)
}

pub fn is_hdr_range(v: &str) -> (r: bool)
    ensures
        r == hdr_range(v@),
{
    let l = string_of(lower_chars(&chars_of(v)).as_slice());
    let s = l.as_str();
    crate::text::contains_str(s, "hdr") || crate::text::contains_str(s, "dolby")
        || crate::text::contains_str(s, "dovi") || crate::text::contains_str(s, "hlg")
        || crate::text::contains_str(s, "pq")
}

/// The library's sort keys are Plex's own except the leaf-added recency
/// sort, which Plex names `episode.addedAt`.
pub fn plex_sort_key(sort: &str) -> (r: &str)
    ensures
        r@ == if sort@ == "episodeAddedAt:desc"@ {
            "episode.addedAt:desc"@
        } else {
            sort@
        },
{
    if str_eq(sort, "episodeAddedAt:desc") {
        "episode.addedAt:desc"
    } else {
        sort
    }
}

pub open spec fn opt_is(t: Option<Seq<char>>, lit: Seq<char>) -> bool {
    t == Some(lit)
}

pub open spec fn str_opt(t: Option<&str>) -> Option<Seq<char>> {
    match t {
        Some(x) => Some(x@),
        None => None,
    }
}

/// Plex media types the library can play or drill into.
pub fn is_playable_video(media_type: Option<&str>) -> (r: bool)
    ensures
        r == (opt_is(str_opt(media_type), "movie"@) || opt_is(str_opt(media_type), "show"@)
            || opt_is(str_opt(media_type), "season"@) || opt_is(str_opt(media_type), "episode"@)
            || opt_is(str_opt(media_type), "clip"@)),
{
    match media_type {
        Some(t) => str_eq(t, "movie") || str_eq(t, "show") || str_eq(t, "season") || str_eq(
            t,
            "episode",
        ) || str_eq(t, "clip"),
        None => false,
    }
}

/// Plex media types that play as they are.
pub fn is_directly_playable_video(media_type: Option<&str>) -> (r: bool)
    ensures
        r == (opt_is(str_opt(media_type), "movie"@) || opt_is(str_opt(media_type), "episode"@)
            || opt_is(str_opt(media_type), "clip"@)),
{
    match media_type {
        Some(t) => str_eq(t, "movie") || str_eq(t, "episode") || str_eq(t, "clip"),
        None => false,
    }
}

/// A Plex id is a non-empty run of ASCII digits.
pub fn validate_plex_id(name: &str, value: &str) -> (r: Result<(), String>)
    ensures
        (value@.len() > 0 && all_digits(value@)) <==> r is Ok,
        r matches Err(m) ==> m@ == "invalid Plex "@ + name@,
{
    let v = chars_of(value);
    let mut ok = v.len() > 0;
    let mut i: usize = 0;
    while i < v.len()
        invariant
            i <= v.len(),
            v@ == value@,
            ok == (v.len() > 0 && forall|k: int| 0 <= k < i ==> crate::text::is_digit(v@[k])),
        decreases v.len() - i,
    {
        if !crate::text::char_is_digit(v[i]) {
            ok = false;
        }
        i += 1;
    }
    if ok {
        Ok(())
    } else {
        Err(concat("invalid Plex ", name))
    }
}

/// The path of a section scan; only a numeric key can form it.
pub fn scan_path(key: &str) -> (r: Result<String, String>)
    ensures
        (key@.len() > 0 && all_digits(key@)) ==> (r matches Ok(p) && p@ == "/library/sections/"@
            + key@ + "/refresh"@),
        !(key@.len() > 0 && all_digits(key@)) ==> (r matches Err(m) && m@
            == "invalid Plex section key"@),
{
    match validate_plex_id("section key", key) {
        Ok(()) => {
            let a = concat("/library/sections/", key);
            Ok(concat(a.as_str(), "/refresh"))
        },
        Err(e) => {
            proof {
                reveal_strlit("invalid Plex ");
                reveal_strlit("section key");
                reveal_strlit("invalid Plex section key");
            }
            Err(e)
        },
    }
}

pub open spec fn machine_is(id: Seq<char>) -> spec_fn(PlexServer) -> bool {
    |s: PlexServer| s.machine_identifier@ == id
}

/// Only the servers of one machine, when a machine is given.
pub open spec fn same_machine(servers: Seq<PlexServer>, machine: Option<Seq<char>>) -> Seq<PlexServer> {
    match machine {
        Some(id) => servers.filter(machine_is(id)),
        None => servers,
    }
}

/// Narrow a discovery result to one machine; no machine keeps them all.
pub fn same_machine_candidates(servers: Vec<PlexServer>, machine: Option<&str>) -> (r: Vec<PlexServer>)
    ensures
        r@ == same_machine(servers@, str_opt(machine)),
{
    match machine {
        None => {
            assert(same_machine(servers@, str_opt(machine)) == servers@);
            servers
        },
        Some(id) => {
            let ghost p = machine_is(id@);
            let ghost s = servers@;
            let mut rest = servers;
            let mut out: Vec<PlexServer> = Vec::new();
            let ghost mut j: int = 0;
            while rest.len() > 0
                invariant
                    0 <= j <= s.len(),
                    rest.len() == s.len() - j,
                    rest@ == s.skip(j),
                    out@ == s.take(j).filter(p),
                    p == machine_is(id@),
                decreases rest.len(),
            {
                let x = rest.remove(0);
                proof {
                    assert(rest@ =~= s.skip(j + 1));
                    assert(x == s[j]);
                    crate::seqs::lemma_filter_take_step(s, p, j);
                }
                if str_eq(x.machine_identifier.as_str(), id) {
                    out.push(x);
                }
                proof {
                    j = j + 1;
                }
            }
            assert(s.take(j) =~= s);
            out
        },
    }
}

/// Rediscovery pins to the installed machine, unless it is unknown (empty).
pub fn rediscovery_pin(installed: Option<String>) -> (r: Option<String>)
    ensures
        r == (match installed {
            Some(m) => if m@.len() > 0 {
                Some(m)
            } else {
                None
            },
            None => None,
        }),
{
    match installed {
        Some(m) => if m.as_str().is_empty() {
            None
        } else {
            Some(m)
        },
        None => None,
    }
}

/// A pinned rediscovery may always install; an unpinned one only while no
/// known server is installed.
pub fn should_install(pinned: bool, installed_now: Option<&str>) -> (r: bool)
    ensures
        r == (pinned || match installed_now {
            Some(m) => m@.len() == 0,
            None => true,
        }),
{
    pinned || match installed_now {
        Some(m) => m.is_empty(),
        None => true,
    }
}

/// An install voids the keys handed out only when it is unpinned and
/// replaces a server.
pub fn rebind_voids_keys(pinned: bool, had_server: bool) -> (r: bool)
    ensures
        r == (!pinned && had_server),
{
    !pinned && had_server
}

/// Both machines known, non-empty and the same.
pub open spec fn same_known(a: Option<Seq<char>>, b: Option<Seq<char>>) -> bool {
    match (a, b) {
        (Some(x), Some(y)) => x == y && x.len() > 0,
        _ => false,
    }
}

fn same_known_exec(a: Option<&str>, b: Option<&str>) -> (r: bool)
    ensures
        r == same_known(str_opt(a), str_opt(b)),
{
    match (a, b) {
        (Some(x), Some(y)) => str_eq(x, y) && !x.is_empty(),
        _ => false,
    }
}

/// A scan may fire only at the machine its section key came from.
pub fn scan_target_ok(served_by: Option<&str>, current: Option<&str>) -> (r: bool)
    ensures
        r == same_known(str_opt(served_by), str_opt(current)),
{
    same_known_exec(served_by, current)
}

/// A failed scan may be retried only on the same machine.
pub fn may_retry_scan_on(before: Option<&str>, after: Option<&str>) -> (r: bool)
    ensures
        r == same_known(str_opt(before), str_opt(after)),
{
    same_known_exec(before, after)
}

/// The persisted row of a Plex source, by id.
pub open spec fn plex_row(rows: Seq<SourceConfig>, source_id: Seq<char>) -> Option<int> {
    crate::seqs::first_match(
        rows,
        |s: SourceConfig| s.kind@ == "plex"@ && s.id@ == source_id,
    )
}

/// Persist a Plex source's binding: the first Plex row with this id gets
/// the base URL, the machine and (when given) the name; every other row is
/// left as it was.
pub fn update_source_binding(
    cfg: &mut AppConfig,
    source_id: &str,
    source_name: Option<&str>,
    base_url: &str,
    machine_identifier: &str,
) -> (r: Result<(), String>)
    ensures
        match plex_row(old(cfg).sources@, source_id@) {
            None => r matches Err(m) && m@ == "persisted Plex source disappeared"@ && *final(cfg)
                == *old(cfg),
            Some(i) => r is Ok && final(cfg).sources.len() == old(cfg).sources.len() && (forall|
                k: int,
            |
                0 <= k < final(cfg).sources.len() && k != i ==> #[trigger] final(cfg).sources@[k]
                    == old(cfg).sources@[k]) && {
                let before = old(cfg).sources@[i];
                let after = final(cfg).sources@[i];
                &&& after.name@ == match source_name {
                    Some(n) => n@,
                    None => before.name@,
                }
                &&& after.base_url@ == base_url@
                &&& opt_view(after.machine_identifier) == Some(machine_identifier@)
                &&& after.id == before.id
                &&& after.kind == before.kind
                &&& after.access_token == before.access_token
                &&& after.api_key == before.api_key
                &&& after.user_id == before.user_id
                &&& after.device_id == before.device_id
            },
        },
        final(cfg).recents == old(cfg).recents,
        final(cfg).hidden_from_continue == old(cfg).hidden_from_continue,
{
    let ghost rows = cfg.sources@;
    let ghost p = |s: SourceConfig| s.kind@ == "plex"@ && s.id@ == source_id@;
    let mut i: usize = 0;
    while i < cfg.sources.len()
        invariant
            i <= cfg.sources.len(),
            rows == cfg.sources@,
            *cfg == *old(cfg),
            p == (|s: SourceConfig| s.kind@ == "plex"@ && s.id@ == source_id@),
            forall|k: int| 0 <= k < i ==> !p(#[trigger] rows[k]),
        decreases cfg.sources.len() - i,
    {
        let s = &cfg.sources[i];
        if str_eq(s.kind.as_str(), "plex") && str_eq(s.id.as_str(), source_id) {
            proof {
                crate::seqs::lemma_first_match_found(rows, p, i as int);
            }
            let mut row = cfg.sources.remove(i);
            match source_name {
                Some(n) => row.name = n.to_string(),
                None => {},
            }
            row.base_url = base_url.to_string();
            row.machine_identifier = Some(machine_identifier.to_string());
            let ghost rv = row;
            cfg.sources.insert(i, row);
            assert(cfg.sources@ =~= rows.update(i as int, rv));
            return Ok(());
        }
        i += 1;
    }
    proof {
        crate::seqs::lemma_first_match_none(rows, p);
    }
    Err("persisted Plex source disappeared".to_string())
}

/// A saved endpoint's host and port, when the base URL is an https URL
/// with both.
pub open spec fn https_endpoint(base_url: Seq<char>) -> Option<(Seq<char>, u16)> {
    match url_connection(base_url) {
        Some((scheme, Some(host), Some(port), _)) => if scheme == "https"@ {
            Some((host, port))
        } else {
            None
        },
        _ => None,
    }
}

/// What a persisted row restores: the token, the client identifier and,
/// when the row saved an https endpoint, its host, port and the machine it
/// is pinned to (empty when none). Nothing for a row that is not a complete
/// Plex row, nor for a pinned row without a usable endpoint: a known pin is
/// never traded for free discovery across the account.
pub open spec fn restored_binding(cfg: SourceConfig) -> Option<
    (Seq<char>, Seq<char>, Option<(Seq<char>, u16, Seq<char>)>),
> {
    let pin = nonblank(cfg.machine_identifier);
    if cfg.kind@ != "plex"@ || trim(cfg.id@).len() == 0 || trim(cfg.name@).len() == 0 {
        None
    } else {
        match (nonblank(cfg.access_token), nonblank(cfg.device_id)) {
            (Some(token), Some(client)) => {
                let endpoint = if trim(cfg.base_url@).len() == 0 {
                    None
                } else {
                    https_endpoint(cfg.base_url@)
                };
                match endpoint {
                    Some((host, port)) => Some(
                        (
                            token,
                            client,
                            Some(
                                (
                                    host,
                                    port,
                                    match pin {
                                        Some(m) => m,
                                        None => Seq::empty(),
                                    },
                                ),
                            ),
                        ),
                    ),
                    None => if pin is Some {
                        None
                    } else {
                        Some((token, client, None))
                    },
                }
            },
            _ => None,
        }
    }
}

/// A client state is the one a persisted row restores: its credentials and,
/// when it saved one, its endpoint under the row's name.
pub open spec fn restores(cfg: SourceConfig, lib: PlexLibraryView) -> bool {
    match restored_binding(cfg) {
        None => false,
        Some((token, client, endpoint)) => {
            &&& lib.1 == token
            &&& lib.2 == client
            &&& match endpoint {
                None => lib.0 is None,
                Some((host, port, machine)) => lib.0 matches Some(s) && endpoint_server(
                    s,
                    "https"@,
                    host,
                    port,
                    cfg.name@,
                    machine,
                ),
            }
        },
    }
}

/// The Plex client a persisted source row restores, if it restores one.
pub fn library_from_config(cfg: &SourceConfig) -> (r: Option<PlexLibrary>)
    ensures
        r is None <==> restored_binding(*cfg) is None,
        r matches Some(lib) ==> restores(*cfg, lib@),
{
    if !str_eq(cfg.kind.as_str(), "plex") || trimmed(cfg.id.as_str()).as_str().is_empty()
        || trimmed(cfg.name.as_str()).as_str().is_empty() {
        return None;
    }
    let token = match nonblank_copy(&cfg.access_token) {
        Some(t) => t,
        None => return None,
    };
    let client = match nonblank_copy(&cfg.device_id) {
        Some(c) => c,
        None => return None,
    };
    let pin = nonblank_copy(&cfg.machine_identifier);
    let mut lib = PlexLibrary::new(token, client);
    if !trimmed(cfg.base_url.as_str()).as_str().is_empty() {
        let endpoint = match parse_connection(cfg.base_url.as_str()) {
            Some((scheme, Some(host), Some(port), _)) => if str_eq(scheme.as_str(), "https") {
                Some((host, port))
            } else {
                None
            },
            _ => None,
        };
        match endpoint {
            Some((host, port)) => {
                lib.set_server_manual(host, port, true, Some(cfg.name.clone()));
                match pin {
                    Some(m) => lib.set_machine_identifier(m),
                    None => {},
                }
            },
            None => if pin.is_some() {
                return None;
            },
        }
    } else if pin.is_some() {
        return None;
    }
    Some(lib)
}

/// The installed server is a known machine.
pub open spec fn machine_known(lib: PlexLibraryView) -> bool {
    lib.0 matches Some(s) && s.machine_identifier@.len() > 0
}

/// Whether a caller may probe the server's identity, and whether a read has
/// spent the source's one attempt afterwards: only while the machine is
/// unknown, and a read only while no read has probed.
pub open spec fn probe_outcome(lib: PlexLibraryView, probed: bool, probe: Probe) -> (bool, bool) {
    if machine_known(lib) {
        (false, probed)
    } else {
        match probe {
            Probe::WhileUnknown => (true, probed),
            Probe::Once => (!probed, true),
        }
    }
}

/// What an identity answer about the server cloned under `cloned` does:
/// written, with the origin and machine to persist, only while the binding
/// is still `cloned` and the installed server is unnamed.
pub open spec fn identity_outcome(lib: PlexLibraryView, binding: u64, cloned: u64, id: String) -> (
    Option<(Seq<char>, Seq<char>)>,
    PlexLibraryView,
) {
    match lib.0 {
        Some(s) => if binding == cloned && s.machine_identifier@.len() == 0 {
            (
                Some((crate::plex_library::origin_of(s), id@)),
                (Some(PlexServer { machine_identifier: id, ..s }), lib.1, lib.2),
            )
        } else {
            (None, lib)
        },
        None => (None, lib),
    }
}

/// What installing a discovered server does: whether it installs (an
/// unpinned discovery never replaces a known machine), the client after,
/// and the binding after, which moves on when an unpinned install replaces
/// a server and so voids the keys handed out.
pub open spec fn install_outcome(lib: PlexLibraryView, binding: u64, pinned: bool, chosen: PlexServer) -> (
    bool,
    PlexLibraryView,
    u64,
) {
    if !(pinned || !machine_known(lib)) {
        (false, lib, binding)
    } else {
        (
            true,
            (Some(chosen), lib.1, lib.2),
            if !pinned && lib.0 is Some {
                if binding == u64::MAX {
                    0
                } else {
                    (binding + 1) as u64
                }
            } else {
                binding
            },
        )
    }
}

/// How hard a caller works to learn which server a source is bound to.
#[derive(Clone, Copy, Debug, PartialEq, Eq, Structural)]
pub enum Probe {
    /// Reads: one attempt in the source's lifetime.
    Once,
    /// The sections path: every time while the machine is unknown.
    WhileUnknown,
}

/// A library section kind the player lists.
pub open spec fn is_video_section(s: crate::plex_library::LibrarySection) -> bool {
    s.section_type@ == "movie"@ || s.section_type@ == "show"@
}

/// The machine a list is stamped with: the one that served it, else the
/// one the source is bound to now (the caller proved they are the same by
/// the binding); none when neither is known.
pub open spec fn provenance_of(served_by: Option<String>, current: Option<PlexServer>) -> Option<Seq<char>> {
    match nonblank(served_by) {
        Some(m) => Some(m),
        None => match current {
            Some(c) => if c.machine_identifier@.len() > 0 {
                Some(c.machine_identifier@)
            } else {
                None
            },
            None => None,
        },
    }
}

/// A section as this source issues it under a binding.
pub open spec fn section_issued(
    d: crate::source::SectionDto,
    s: crate::plex_library::LibrarySection,
    source_id: Seq<char>,
    source_name: Seq<char>,
    provenance: Option<Seq<char>>,
    binding: u64,
) -> bool {
    &&& d.key@ == namespaced(source_id, s.key@)
    &&& d.title@ == s.title@
    &&& d.section_type@ == s.section_type@
    &&& d.source_id@ == source_id
    &&& d.source_name@ == source_name
    &&& d.sort is None
    &&& opt_view(d.provenance) == provenance
    &&& d.binding == binding
}

/// A Plex source: the id and name it is registered under, its client, which
/// binding of it issued the keys it hands out (it moves on when the source
/// rebinds to a server it cannot prove is the same one), and whether a read
/// has already spent the one identity probe reads may make.
pub struct PlexSource {
    pub id: String,
    pub name: String,
    pub lib: PlexLibrary,
    pub binding: u64,
    pub identity_probed: bool,
}

impl PlexSource {
    pub fn new(id: &str, name: &str, lib: PlexLibrary) -> (r: Self)
        ensures
            r.id@ == id@,
            r.name@ == name@,
            r.lib@ == lib@,
            r.binding == 0,
            !r.identity_probed,
    {
        PlexSource { id: id.to_string(), name: name.to_string(), lib, binding: 0, identity_probed: false }
    }

    pub fn id(&self) -> (r: String)
        ensures
            r@ == self.id@,
    {
        self.id.clone()
    }

    pub fn name(&self) -> (r: String)
        ensures
            r@ == self.name@,
    {
        self.name.clone()
    }

    pub fn kind(&self) -> (r: &'static str)
        ensures
            r@ == "plex"@,
    {
        "plex"
    }

    /// Whether this caller may probe the server's identity: only while the
    /// installed machine is unknown, and a read only if no read has probed
    /// yet. A read that may probe spends the source's one attempt.
    pub fn claim_identity_probe(&mut self, probe: Probe) -> (r: bool)
        ensures
            (r, final(self).identity_probed) == probe_outcome(
                old(self).lib@,
                old(self).identity_probed,
                probe,
            ),
            final(self).lib == old(self).lib,
            final(self).binding == old(self).binding,
            final(self).id == old(self).id,
            final(self).name == old(self).name,
    {
        if rediscovery_pin(self.lib.server_machine_id()).is_some() {
            return false;
        }
        match probe {
            Probe::WhileUnknown => true,
            Probe::Once => {
                let spent = self.identity_probed;
                self.identity_probed = true;
                !spent
            },
        }
    }

    /// Adopt an identity answer about the server cloned under
    /// `cloned_binding`. It is written only while nothing has rebound the
    /// source since and the installed server is still unnamed; then the
    /// origin and machine to persist come back.
    pub fn learn_identity(&mut self, cloned_binding: u64, id: String) -> (r: Option<(String, String)>)
        ensures
            final(self).binding == old(self).binding,
            final(self).identity_probed == old(self).identity_probed,
            final(self).id == old(self).id,
            final(self).name == old(self).name,
            (
                match r {
                    Some(p) => Some((p.0@, p.1@)),
                    None => None,
                },
                final(self).lib@,
            ) == identity_outcome(old(self).lib@, old(self).binding, cloned_binding, id),
    {
        if self.binding != cloned_binding || rediscovery_pin(self.lib.server_machine_id()).is_some() {
            return None;
        }
        let keep = id.clone();
        self.lib.set_machine_identifier(id);
        match self.lib.server_base() {
            Some(base) => Some((base, keep)),
            None => None,
        }
    }

    /// Install a discovered server, or decline to: an unpinned discovery
    /// never replaces a known machine another task installed meanwhile. An
    /// unpinned install over an existing server voids the keys already
    /// handed out, so the binding moves on; a pinned one is the same machine
    /// and keeps them.
    pub fn install_discovered(&mut self, pinned: bool, chosen: PlexServer) -> (installed: bool)
        ensures
            (installed, final(self).lib@, final(self).binding) == install_outcome(
                old(self).lib@,
                old(self).binding,
                pinned,
                chosen,
            ),
            !installed ==> final(self).lib == old(self).lib,
            final(self).identity_probed == old(self).identity_probed,
            final(self).id == old(self).id,
            final(self).name == old(self).name,
    {
        let installed_now = self.lib.server_machine_id();
        let known = match &installed_now {
            Some(m) => Some(m.as_str()),
            None => None,
        };
        if !should_install(pinned, known) {
            return false;
        }
        if rebind_voids_keys(pinned, self.lib.server_base().is_some()) {
            self.binding = self.binding.wrapping_add(1);
        }
        self.lib.set_server(chosen);
        true
    }

    /// The video sections of a list fetched under `binding`, stamped with
    /// the machine that served it (else the one the source is bound to now);
    /// nothing when the source has rebound since, because the list then
    /// describes a server it no longer is.
    pub fn sections_for(
        &self,
        binding: u64,
        served_by: Option<String>,
        sections: Vec<crate::plex_library::LibrarySection>,
    ) -> (r: Option<Vec<crate::source::SectionDto>>)
        ensures
            r is None <==> self.binding != binding,
            match r {
                None => true,
                Some(v) => {
                    let kept = sections@.filter(|x: crate::plex_library::LibrarySection| is_video_section(x));
                    &&& v@.len() == kept.len()
                    &&& forall|k: int|
                        0 <= k < kept.len() ==> section_issued(
                            #[trigger] v@[k],
                            kept[k],
                            self.id@,
                            self.name@,
                            provenance_of(served_by, self.lib@.0),
                            binding,
                        )
                },
            },
    {
        if self.binding != binding {
            return None;
        }
        let provenance = match rediscovery_pin(served_by) {
            Some(m) => Some(m),
            None => rediscovery_pin(self.lib.server_machine_id()),
        };
        let ghost p = |x: crate::plex_library::LibrarySection| is_video_section(x);
        let ghost prov = provenance_of(served_by, self.lib@.0);
        assert(opt_view(provenance) == prov);
        let mut out: Vec<crate::source::SectionDto> = Vec::new();
        let mut i: usize = 0;
        while i < sections.len()
            invariant
                i <= sections.len(),
                opt_view(provenance) == prov,
                p == (|x: crate::plex_library::LibrarySection| is_video_section(x)),
                out@.len() == sections@.take(i as int).filter(p).len(),
                forall|k: int|
                    0 <= k < out@.len() ==> section_issued(
                        #[trigger] out@[k],
                        sections@.take(i as int).filter(p)[k],
                        self.id@,
                        self.name@,
                        prov,
                        binding,
                    ),
            decreases sections.len() - i,
        {
            proof {
                crate::seqs::lemma_filter_take_step(sections@, p, i as int);
            }
            let sec = &sections[i];
            if str_eq(sec.section_type.as_str(), "movie") || str_eq(sec.section_type.as_str(), "show") {
                let d = crate::source::SectionDto {
                    key: namespace_key(self.id.as_str(), sec.key.as_str()),
                    title: sec.title.clone(),
                    section_type: sec.section_type.clone(),
                    source_id: self.id.clone(),
                    source_name: self.name.clone(),
                    sort: None,
                    provenance: provenance.clone(),
                    binding,
                };
                out.push(d);
            }
            i += 1;
        }
        assert(sections@.take(sections@.len() as int) =~= sections@);
        Some(out)
    }

    /// A server playlist as a library playlist of this source.
    pub fn to_playlist(&self, playlist: PlexPlaylist) -> (r: PlaylistDto)
        ensures
            r.key@ == namespaced(self.id@, playlist.rating_key@),
            r.title == playlist.title,
            r.item_count == playlist.leaf_count,
            r.source_id@ == self.id@,
            r.source_name@ == self.name@,
    {
        PlaylistDto {
            key: namespace_key(self.id.as_str(), playlist.rating_key.as_str()),
            title: playlist.title,
            item_count: playlist.leaf_count,
            source_id: self.id.clone(),
            source_name: self.name.clone(),
        }
    }
}

/// Why rediscovery installed nothing: no server on the account was a
/// candidate, or none of them was reachable directly.
pub fn discovery_failure(candidates: &Vec<PlexServer>) -> (r: String)
    ensures
        r@ == if candidates.len() == 0 {
            "no Plex servers found"@
        } else {
            "no reachable direct HTTPS Plex server found; check Plex Remote Access or connect to the server's network. Plex Relay is not used by default for HDR playback."@
        },
{
    if candidates.len() == 0 {
        "no Plex servers found".to_string()
    } else {
        "no reachable direct HTTPS Plex server found; check Plex Remote Access or connect to the server's network. Plex Relay is not used by default for HDR playback.".to_string()
    }
}

/// An install that voids the keys moves the binding on, so whatever was
/// issued or asked under the old binding is recognised as stale: a list
/// fetched under it is not served, and an identity answer about the
/// replaced server is never written onto the one that replaced it.
pub proof fn law_voiding_install_strands_the_old_binding(
    lib: PlexLibraryView,
    binding: u64,
    chosen: PlexServer,
    id: String,
)
    requires
        lib.0 is Some,
        !machine_known(lib),
    ensures
        ({
            let (installed, after, moved) = install_outcome(lib, binding, false, chosen);
            &&& installed
            &&& moved != binding
            &&& identity_outcome(after, moved, binding, id) == (None::<(Seq<char>, Seq<char>)>, after)
        }),
{
}

/// A pinned install is the same machine: it keeps the binding, and so the
/// keys already handed out.
pub proof fn law_pinned_install_keeps_the_binding(lib: PlexLibraryView, binding: u64, chosen: PlexServer)
    ensures
        install_outcome(lib, binding, true, chosen).0,
        install_outcome(lib, binding, true, chosen).2 == binding,
{
}

/// Reads probe a server's identity at most once: of two successive read
/// claims, at most one may probe.
pub proof fn law_reads_probe_at_most_once(lib: PlexLibraryView, probed: bool)
    ensures
        !(probe_outcome(lib, probed, Probe::Once).0 && probe_outcome(
            lib,
            probe_outcome(lib, probed, Probe::Once).1,
            Probe::Once,
        ).0),
{
}

/// The source a persisted Plex row restores, if it restores one.
pub fn build_source(cfg: &SourceConfig) -> (r: Option<PlexSource>)
    ensures
        r is None <==> restored_binding(*cfg) is None,
        r matches Some(src) ==> src.id@ == cfg.id@ && src.name@ == cfg.name@ && restores(
            *cfg,
            src.lib@,
        ),
{
    match library_from_config(cfg) {
        Some(lib) => Some(PlexSource::new(cfg.id.as_str(), cfg.name.as_str(), lib)),
        None => None,
    }
}

// ---- item detail --------------------------------------------------------------

/// A person-browse key: namespaced when the tag id is a non-empty run of
/// digits, absent otherwise.
pub open spec fn person_key(source_id: Seq<char>, id: Option<String>) -> Option<Seq<char>> {
    match id {
        Some(x) => if x@.len() > 0 && all_digits(x@) {
            Some(namespaced(source_id, x@))
        } else {
            None
        },
        None => None,
    }
}

fn person_key_of(source_id: &str, id: &Option<String>) -> (r: Option<String>)
    ensures
        opt_view(r) == person_key(source_id@, *id),
{
    match id {
        Some(x) => if validate_plex_id("id", x.as_str()).is_ok() {
            Some(namespace_key(source_id, x.as_str()))
        } else {
            None
        },
        None => None,
    }
}

/// The non-blank tag names, in order.
pub open spec fn tag_names(v: Seq<crate::plex_library::PlexTag>) -> Seq<Seq<char>>
    decreases v.len(),
{
    if v.len() == 0 {
        Seq::empty()
    } else {
        let r = tag_names(v.drop_last());
        if v.last().tag@.len() > 0 {
            r.push(v.last().tag@)
        } else {
            r
        }
    }
}

/// The people of the non-blank tags, as (name, person key).
pub open spec fn people_of(source_id: Seq<char>, v: Seq<crate::plex_library::PlexTag>) -> Seq<
    (Seq<char>, Option<Seq<char>>),
>
    decreases v.len(),
{
    if v.len() == 0 {
        Seq::empty()
    } else {
        let r = people_of(source_id, v.drop_last());
        if v.last().tag@.len() > 0 {
            r.push((v.last().tag@, person_key(source_id, v.last().id)))
        } else {
            r
        }
    }
}

pub open spec fn people_view(v: Seq<crate::source::PersonRef>) -> Seq<(Seq<char>, Option<Seq<char>>)> {
    v.map_values(|p: crate::source::PersonRef| (p.name@, opt_view(p.person_key)))
}

pub open spec fn nonblank(o: Option<String>) -> Option<Seq<char>> {
    match o {
        Some(x) => if x@.len() > 0 {
            Some(x@)
        } else {
            None
        },
        None => None,
    }
}

pub open spec fn thumb_at(thumbs: Seq<Option<String>>, i: int) -> Option<Seq<char>> {
    if 0 <= i < thumbs.len() {
        opt_view(thumbs[i])
    } else {
        None
    }
}

/// The named cast members as (name, role, thumb URL, person key); the thumb
/// URL of role `i` is `thumbs[i]`.
pub open spec fn cast_of(
    source_id: Seq<char>,
    roles: Seq<crate::plex_library::PlexRole>,
    thumbs: Seq<Option<String>>,
) -> Seq<(Seq<char>, Option<Seq<char>>, Option<Seq<char>>, Option<Seq<char>>)>
    decreases roles.len(),
{
    if roles.len() == 0 {
        Seq::empty()
    } else {
        let r = cast_of(source_id, roles.drop_last(), thumbs);
        let x = roles.last();
        if x.tag@.len() > 0 {
            r.push(
                (
                    x.tag@,
                    nonblank(x.role),
                    thumb_at(thumbs, roles.len() - 1),
                    person_key(source_id, x.id),
                ),
            )
        } else {
            r
        }
    }
}

pub open spec fn cast_view(v: Seq<crate::source::CastMember>) -> Seq<
    (Seq<char>, Option<Seq<char>>, Option<Seq<char>>, Option<Seq<char>>),
> {
    v.map_values(
        |c: crate::source::CastMember|
            (c.name@, opt_view(c.role), opt_view(c.thumb), opt_view(c.person_key)),
    )
}

/// All streams of all parts, in order.
pub open spec fn flat_streams(parts: Seq<crate::plex_library::PlexDetailPart>) -> Seq<
    crate::plex_library::PlexStream,
>
    decreases parts.len(),
{
    if parts.len() == 0 {
        Seq::empty()
    } else {
        flat_streams(parts.drop_last()) + parts.last().streams@
    }
}

pub open spec fn stream_dto(s: crate::plex_library::PlexStream) -> crate::source::MediaStreamDto {
    crate::source::MediaStreamDto {
        stream_type: s.stream_type,
        codec: s.codec,
        language: s.language,
        channels: s.channels,
        display_title: s.display_title,
    }
}

/// A media version for the detail view: HDR when its dynamic range names
/// an HDR variant, with the streams of all its parts.
pub open spec fn version_of(m: crate::plex_library::PlexDetailMedia, v: crate::source::MediaVersionDto) -> bool {
    &&& v.hdr == match m.video_dynamic_range {
        Some(r) => hdr_range(r@),
        None => false,
    }
    &&& v.streams@ == flat_streams(m.parts@).map_values(|s: crate::plex_library::PlexStream| stream_dto(s))
    &&& v.video_resolution == m.video_resolution
    &&& v.width == m.width
    &&& v.height == m.height
    &&& v.video_codec == m.video_codec
    &&& v.audio_codec == m.audio_codec
    &&& v.container == m.container
}

/// Image URLs already made for a detail: poster, backdrop, and one per
/// cast role, by the role's position.
pub struct DetailImages {
    pub poster: Option<String>,
    pub backdrop: Option<String>,
    pub role_thumbs: Vec<Option<String>>,
}

/// The image paths a detail shows: the poster is the thumb; an episode's
/// backdrop is its scene still, another item's its art; each role's thumb.
pub fn detail_image_paths(d: &crate::plex_library::PlexDetail) -> (r: (Option<String>, Option<String>, Vec<Option<String>>))
    ensures
        r.0 == d.thumb,
        r.1 == if opt_view(d.media_type) == Some("episode"@) {
            d.thumb
        } else {
            d.art
        },
        r.2@.len() == d.roles@.len(),
        forall|i: int| 0 <= i < d.roles@.len() ==> r.2@[i] == (#[trigger] d.roles@[i]).thumb,
{
    let is_episode = match &d.media_type {
        Some(t) => str_eq(t.as_str(), "episode"),
        None => false,
    };
    let backdrop = if is_episode {
        crate::source::copy_opt(&d.thumb)
    } else {
        crate::source::copy_opt(&d.art)
    };
    let mut thumbs: Vec<Option<String>> = Vec::new();
    let mut i: usize = 0;
    while i < d.roles.len()
        invariant
            i <= d.roles.len(),
            thumbs@.len() == i,
            forall|k: int| 0 <= k < i ==> thumbs@[k] == (#[trigger] d.roles@[k]).thumb,
        decreases d.roles.len() - i,
    {
        thumbs.push(crate::source::copy_opt(&d.roles[i].thumb));
        i += 1;
    }
    (crate::source::copy_opt(&d.thumb), backdrop, thumbs)
}

fn tags_of(v: &Vec<crate::plex_library::PlexTag>) -> (r: Vec<String>)
    ensures
        crate::text::strings_view(r@) == tag_names(v@),
{
    let mut out: Vec<String> = Vec::new();
    let mut i: usize = 0;
    while i < v.len()
        invariant
            i <= v.len(),
            crate::text::strings_view(out@) == tag_names(v@.take(i as int)),
        decreases v.len() - i,
    {
        assert(v@.take(i + 1).drop_last() =~= v@.take(i as int));
        assert(v@.take(i + 1).last() == v@[i as int]);
        let ghost before = crate::text::strings_view(out@);
        if !v[i].tag.as_str().is_empty() {
            out.push(v[i].tag.clone());
            assert(crate::text::strings_view(out@) =~= before.push(v@[i as int].tag@));
        }
        i += 1;
    }
    assert(v@.take(i as int) =~= v@);
    out
}

fn people_from(source_id: &str, v: &Vec<crate::plex_library::PlexTag>) -> (r: Vec<crate::source::PersonRef>)
    ensures
        people_view(r@) == people_of(source_id@, v@),
{
    let mut out: Vec<crate::source::PersonRef> = Vec::new();
    let mut i: usize = 0;
    while i < v.len()
        invariant
            i <= v.len(),
            people_view(out@) == people_of(source_id@, v@.take(i as int)),
        decreases v.len() - i,
    {
        assert(v@.take(i + 1).drop_last() =~= v@.take(i as int));
        assert(v@.take(i + 1).last() == v@[i as int]);
        let ghost before = people_view(out@);
        if !v[i].tag.as_str().is_empty() {
            let p = crate::source::PersonRef {
                name: v[i].tag.clone(),
                person_key: person_key_of(source_id, &v[i].id),
            };
            out.push(p);
            assert(people_view(out@) =~= before.push((p.name@, opt_view(p.person_key))));
        }
        i += 1;
    }
    assert(v@.take(i as int) =~= v@);
    out
}

fn nonblank_copy(o: &Option<String>) -> (r: Option<String>)
    ensures
        opt_view(r) == nonblank(*o),
{
    match o {
        Some(x) => if x.as_str().is_empty() {
            None
        } else {
            Some(x.clone())
        },
        None => None,
    }
}

fn cast_from(
    source_id: &str,
    roles: &Vec<crate::plex_library::PlexRole>,
    thumbs: &Vec<Option<String>>,
) -> (r: Vec<crate::source::CastMember>)
    ensures
        cast_view(r@) == cast_of(source_id@, roles@, thumbs@),
{
    let mut out: Vec<crate::source::CastMember> = Vec::new();
    let mut i: usize = 0;
    while i < roles.len()
        invariant
            i <= roles.len(),
            cast_view(out@) == cast_of(source_id@, roles@.take(i as int), thumbs@),
        decreases roles.len() - i,
    {
        assert(roles@.take(i + 1).drop_last() =~= roles@.take(i as int));
        assert(roles@.take(i + 1).last() == roles@[i as int]);
        let ghost before = cast_view(out@);
        if !roles[i].tag.as_str().is_empty() {
            let thumb = if i < thumbs.len() {
                crate::source::copy_opt(&thumbs[i])
            } else {
                None
            };
            let c = crate::source::CastMember {
                name: roles[i].tag.clone(),
                role: nonblank_copy(&roles[i].role),
                thumb,
                person_key: person_key_of(source_id, &roles[i].id),
            };
            out.push(c);
            assert(cast_view(out@) =~= before.push(
                (c.name@, opt_view(c.role), opt_view(c.thumb), opt_view(c.person_key)),
            ));
        }
        i += 1;
    }
    assert(roles@.take(i as int) =~= roles@);
    out
}

fn streams_from(parts: &Vec<crate::plex_library::PlexDetailPart>) -> (r: Vec<crate::source::MediaStreamDto>)
    ensures
        r@ == flat_streams(parts@).map_values(|s: crate::plex_library::PlexStream| stream_dto(s)),
{
    let mut out: Vec<crate::source::MediaStreamDto> = Vec::new();
    let mut i: usize = 0;
    while i < parts.len()
        invariant
            i <= parts.len(),
            out@ == flat_streams(parts@.take(i as int)).map_values(
                |s: crate::plex_library::PlexStream| stream_dto(s),
            ),
        decreases parts.len() - i,
    {
        assert(parts@.take(i + 1).drop_last() =~= parts@.take(i as int));
        assert(parts@.take(i + 1).last() == parts@[i as int]);
        let streams = &parts[i].streams;
        let ghost base = out@;
        let mut j: usize = 0;
        while j < streams.len()
            invariant
                j <= streams.len(),
                out@ == base + streams@.take(j as int).map_values(
                    |s: crate::plex_library::PlexStream| stream_dto(s),
                ),
            decreases streams.len() - j,
        {
            let s = &streams[j];
            let dto = crate::source::MediaStreamDto {
                stream_type: s.stream_type,
                codec: crate::source::copy_opt(&s.codec),
                language: crate::source::copy_opt(&s.language),
                channels: s.channels,
                display_title: crate::source::copy_opt(&s.display_title),
            };
            assert(dto == stream_dto(streams@[j as int]));
            out.push(dto);
            assert(streams@.take(j + 1) =~= streams@.take(j as int).push(streams@[j as int]));
            j += 1;
            assert(out@ =~= base + streams@.take(j as int).map_values(
                |s: crate::plex_library::PlexStream| stream_dto(s),
            ));
        }
        assert(streams@.take(j as int) =~= streams@);
        i += 1;
        assert(out@ =~= flat_streams(parts@.take(i as int)).map_values(
            |s: crate::plex_library::PlexStream| stream_dto(s),
        ));
    }
    assert(parts@.take(i as int) =~= parts@);
    out
}

fn version_from(m: &crate::plex_library::PlexDetailMedia) -> (r: crate::source::MediaVersionDto)
    ensures
        version_of(*m, r),
{
    let hdr = match &m.video_dynamic_range {
        Some(v) => is_hdr_range(v.as_str()),
        None => false,
    };
    crate::source::MediaVersionDto {
        video_resolution: crate::source::copy_opt(&m.video_resolution),
        width: m.width,
        height: m.height,
        video_codec: crate::source::copy_opt(&m.video_codec),
        audio_codec: crate::source::copy_opt(&m.audio_codec),
        container: crate::source::copy_opt(&m.container),
        hdr,
        streams: streams_from(&m.parts),
    }
}

pub open spec fn namespaced_opt(source_id: Seq<char>, k: Option<String>) -> Option<Seq<char>> {
    match k {
        Some(x) => Some(namespaced(source_id, x@)),
        None => None,
    }
}

fn namespace_opt(source_id: &str, k: &Option<String>) -> (r: Option<String>)
    ensures
        opt_view(r) == namespaced_opt(source_id@, *k),
{
    match k {
        Some(x) => Some(namespace_key(source_id, x.as_str())),
        None => None,
    }
}

/// The provider-neutral detail of a Plex item: keys namespaced, blank tags
/// and nameless cast dropped, person keys only for numeric ids, `played`
/// always known (an absent view count is zero).
pub fn to_detail(source_id: &str, d: crate::plex_library::PlexDetail, images: DetailImages) -> (r:
    crate::source::DetailDto)
    ensures
        r.rating_key@ == namespaced(source_id@, d.rating_key@),
        r.source_id@ == source_id@,
        r.poster == images.poster,
        r.backdrop == images.backdrop,
        crate::text::strings_view(r.genres@) == tag_names(d.genres@),
        crate::text::strings_view(r.countries@) == tag_names(d.countries@),
        people_view(r.directors@) == people_of(source_id@, d.directors@),
        people_view(r.writers@) == people_of(source_id@, d.writers@),
        cast_view(r.cast@) == cast_of(source_id@, d.roles@, images.role_thumbs@),
        r.media@.len() == d.media@.len(),
        forall|i: int| 0 <= i < d.media@.len() ==> version_of(#[trigger] d.media@[i], r.media@[i]),
        r.played == Some(
            match d.view_count {
                Some(n) => n > 0,
                None => false,
            },
        ),
        r.view_offset_ms == d.view_offset,
        r.title == d.title,
        r.year == d.year,
        r.summary == d.summary,
        r.tagline == d.tagline,
        r.duration_ms == d.duration,
        r.media_type == d.media_type,
        r.content_rating == d.content_rating,
        r.studio == d.studio,
        r.originally_available_at == d.originally_available_at,
        r.index == d.index,
        r.parent_index == d.parent_index,
        r.grandparent_title == d.grandparent_title,
        r.parent_title == d.parent_title,
        opt_view(r.parent_rating_key) == namespaced_opt(source_id@, d.parent_rating_key),
        opt_view(r.grandparent_rating_key) == namespaced_opt(source_id@, d.grandparent_rating_key),
{
    let mut media: Vec<crate::source::MediaVersionDto> = Vec::new();
    let mut i: usize = 0;
    while i < d.media.len()
        invariant
            i <= d.media.len(),
            media@.len() == i,
            forall|k: int| 0 <= k < i ==> version_of(#[trigger] d.media@[k], media@[k]),
        decreases d.media.len() - i,
    {
        media.push(version_from(&d.media[i]));
        i += 1;
    }
    let played = match d.view_count {
        Some(n) => n > 0,
        None => false,
    };
    crate::source::DetailDto {
        rating_key: namespace_key(source_id, d.rating_key.as_str()),
        poster: images.poster,
        backdrop: images.backdrop,
        cast: cast_from(source_id, &d.roles, &images.role_thumbs),
        genres: tags_of(&d.genres),
        directors: people_from(source_id, &d.directors),
        writers: people_from(source_id, &d.writers),
        countries: tags_of(&d.countries),
        media,
        played: Some(played),
        view_offset_ms: d.view_offset,
        parent_rating_key: namespace_opt(source_id, &d.parent_rating_key),
        grandparent_rating_key: namespace_opt(source_id, &d.grandparent_rating_key),
        title: d.title,
        year: d.year,
        summary: d.summary,
        tagline: d.tagline,
        duration_ms: d.duration,
        media_type: d.media_type,
        content_rating: d.content_rating,
        studio: d.studio,
        originally_available_at: d.originally_available_at,
        index: d.index,
        parent_index: d.parent_index,
        grandparent_title: d.grandparent_title,
        parent_title: d.parent_title,
        source_id: source_id.to_string(),
    }
}

// ---- listed items ---------------------------------------------------------------

/// `scheme://value` as `scheme:value` with the scheme lower-cased and any
/// `?query` dropped; nothing without `://` or with an empty value.
pub open spec fn guid_provider_id(g: Seq<char>) -> Option<Seq<char>> {
    match crate::text::find(g, "://"@) {
        None => None,
        Some(i) => {
            let rest0 = g.skip(i + 3);
            let rest = match crate::text::first_index(rest0, '?') {
                Some(j) => rest0.take(j),
                None => rest0,
            };
            if rest.len() > 0 {
                Some(crate::text::unicode_lower(g.take(i)) + ":"@ + rest)
            } else {
                None
            }
        },
    }
}

pub open spec fn provider_ids_of(guids: Seq<crate::plex_library::PlexGuid>) -> Seq<Seq<char>>
    decreases guids.len(),
{
    if guids.len() == 0 {
        Seq::empty()
    } else {
        let r = provider_ids_of(guids.drop_last());
        match guid_provider_id(guids.last().id@) {
            Some(p) => r.push(p),
            None => r,
        }
    }
}

fn provider_id_of(g: &str) -> (r: Option<String>)
    ensures
        opt_view(r) == guid_provider_id(g@),
{
    let v = chars_of(g);
    let sep = chars_of("://");
    proof {
        reveal_strlit("://");
    }
    assert(sep@.len() == 3);
    let i = match crate::text::find_chars(&v, &sep) {
        Some(i) => i,
        None => return None,
    };
    let rest0 = crate::text::slice_chars(&v, i + 3, v.len());
    assert(rest0@ =~= g@.skip(i + 3));
    let rest = match crate::text::find_char(&rest0, '?') {
        Some(j) => crate::text::slice_chars(&rest0, 0, j),
        None => rest0,
    };
    assert(rest@ =~= match crate::text::first_index(g@.skip(i + 3), '?') {
        Some(j) => g@.skip(i + 3).take(j),
        None => g@.skip(i + 3),
    });
    if rest.len() == 0 {
        return None;
    }
    let scheme = string_of(crate::text::slice_chars(&v, 0, i).as_slice());
    assert(scheme@ =~= g@.take(i as int));
    let lowered = crate::text::to_lowercase(scheme.as_str());
    let head = concat(lowered.as_str(), ":");
    Some(concat(head.as_str(), string_of(rest.as_slice()).as_str()))
}

fn provider_ids_from(guids: &Vec<crate::plex_library::PlexGuid>) -> (r: Vec<String>)
    ensures
        crate::text::strings_view(r@) == provider_ids_of(guids@),
{
    let mut out: Vec<String> = Vec::new();
    let mut i: usize = 0;
    while i < guids.len()
        invariant
            i <= guids.len(),
            crate::text::strings_view(out@) == provider_ids_of(guids@.take(i as int)),
        decreases guids.len() - i,
    {
        assert(guids@.take(i + 1).drop_last() =~= guids@.take(i as int));
        assert(guids@.take(i + 1).last() == guids@[i as int]);
        let ghost before = crate::text::strings_view(out@);
        match provider_id_of(guids[i].id.as_str()) {
            Some(p) => {
                out.push(p);
                assert(crate::text::strings_view(out@) =~= before.push(p@));
            },
            None => {},
        }
        i += 1;
    }
    assert(guids@.take(i as int) =~= guids@);
    out
}

/// Image URLs already made for a listed item.
pub struct ItemImages {
    pub poster: Option<String>,
    pub series_poster: Option<String>,
    pub backdrop: Option<String>,
}

/// The image paths a listed item shows: its thumb as the poster, its show's
/// thumb as the series poster, and as the backdrop an episode's scene still
/// or another item's art.
pub fn item_image_paths(v: &crate::plex_library::PlexVideo) -> (r: (Option<String>, Option<String>, Option<String>))
    ensures
        r.0 == v.thumb,
        r.1 == v.grandparent_thumb,
        r.2 == if opt_view(v.media_type) == Some("episode"@) {
            v.thumb
        } else {
            v.art
        },
{
    let is_episode = match &v.media_type {
        Some(t) => str_eq(t.as_str(), "episode"),
        None => false,
    };
    let backdrop = if is_episode {
        crate::source::copy_opt(&v.thumb)
    } else {
        crate::source::copy_opt(&v.art)
    };
    (crate::source::copy_opt(&v.thumb), crate::source::copy_opt(&v.grandparent_thumb), backdrop)
}

pub open spec fn ms_of_seconds(s: Option<u64>) -> Option<u64> {
    match s {
        Some(x) => Some(crate::recents::sat_mul(x, 1000)),
        None => None,
    }
}

fn seconds_to_ms(s: Option<u64>) -> (r: Option<u64>)
    ensures
        r == ms_of_seconds(s),
{
    match s {
        Some(x) => Some(crate::recents::saturating_mul(x, 1000)),
        None => None,
    }
}

/// The provider-neutral item of a listed Plex row: keys namespaced,
/// `played` always known, Plex's epoch seconds carried as milliseconds,
/// external ids as `scheme:value`.
pub fn to_item(source_id: &str, v: crate::plex_library::PlexVideo, images: ItemImages) -> (r: crate::source::ItemDto)
    ensures
        r.rating_key@ == namespaced(source_id@, v.rating_key@),
        r.source_id@ == source_id@,
        r.poster == images.poster,
        r.series_poster == images.series_poster,
        r.backdrop == images.backdrop,
        r.title == v.title,
        r.year == v.year,
        r.summary == v.summary,
        r.duration_ms == v.duration,
        r.media_type == v.media_type,
        r.view_offset_ms == v.view_offset,
        r.played == Some(
            match v.view_count {
                Some(n) => n > 0,
                None => false,
            },
        ),
        r.last_watched_at_ms == ms_of_seconds(v.last_viewed_at),
        r.added_at_ms == ms_of_seconds(v.added_at),
        r.index == v.index,
        r.parent_index == v.parent_index,
        r.grandparent_title == v.grandparent_title,
        r.parent_title == v.parent_title,
        opt_view(r.parent_rating_key) == namespaced_opt(source_id@, v.parent_rating_key),
        opt_view(r.grandparent_rating_key) == namespaced_opt(source_id@, v.grandparent_rating_key),
        crate::text::strings_view(r.provider_ids@) == provider_ids_of(v.guids@),
        r.backing is None,
        r.canonical_id is None,
        r.watch_key is None,
        r.detail_key is None,
{
    let played = match v.view_count {
        Some(n) => n > 0,
        None => false,
    };
    crate::source::ItemDto {
        poster: images.poster,
        series_poster: images.series_poster,
        backdrop: images.backdrop,
        rating_key: namespace_key(source_id, v.rating_key.as_str()),
        provider_ids: provider_ids_from(&v.guids),
        parent_rating_key: namespace_opt(source_id, &v.parent_rating_key),
        grandparent_rating_key: namespace_opt(source_id, &v.grandparent_rating_key),
        title: v.title,
        year: v.year,
        summary: v.summary,
        duration_ms: v.duration,
        media_type: v.media_type,
        view_offset_ms: v.view_offset,
        played: Some(played),
        last_watched_at_ms: seconds_to_ms(v.last_viewed_at),
        added_at_ms: seconds_to_ms(v.added_at),
        index: v.index,
        parent_index: v.parent_index,
        grandparent_title: v.grandparent_title,
        parent_title: v.parent_title,
        source_id: source_id.to_string(),
        backing: None,
        canonical_id: None,
        watch_key: None,
        detail_key: None,
    }
}

// ---- the playback preflight -------------------------------------------------

/// What a part's HEAD status means for starting playback: success, or 405
/// (HEAD not allowed, so nothing can be checked), lets it through; 404 is a
/// moved or deleted file; anything else a refusal naming the status.
pub open spec fn preflight(status: u16) -> Result<(), Seq<char>> {
    if status == 405 || (200 <= status <= 299) {
        Ok(())
    } else if status == 404 {
        Err("File not found on the server — it may have been moved or deleted."@)
    } else {
        Err("the media server rejected playback (HTTP "@ + crate::text::decimal(status as nat) + ")"@)
    }
}

/// The verdict on one preflight response.
pub fn preflight_verdict(status: u16) -> (r: Result<(), String>)
    ensures
        match preflight(status) {
            Ok(()) => r is Ok,
            Err(m) => r matches Err(e) && e@ == m,
        },
{
    if status == 405 || (200 <= status && status <= 299) {
        Ok(())
    } else if status == 404 {
        Err("File not found on the server — it may have been moved or deleted.".to_string())
    } else {
        let head = concat(
            "the media server rejected playback (HTTP ",
            crate::text::decimal_string(status as u64).as_str(),
        );
        Err(concat(head.as_str(), ")"))
    }
}

// ---- split-file play URLs -------------------------------------------------------

pub open spec fn byte_digits(d: Seq<u8>) -> bool {
    forall|i: int| 0 <= i < d.len() ==> 48 <= #[trigger] d[i] <= 57
}

pub open spec fn byte_value(d: Seq<u8>) -> int
    decreases d.len(),
{
    if d.len() == 0 {
        0
    } else {
        byte_value(d.drop_last()) * 10 + (d.last() - 48)
    }
}

/// `<usize as FromStr>::from_str` on ASCII text: an optional `+`, then one
/// or more decimal digits whose value fits.
pub open spec fn byte_number(d: Seq<u8>) -> Option<usize> {
    let e = if d.len() > 0 && d[0] == 43 {
        d.drop_first()
    } else {
        d
    };
    if e.len() > 0 && byte_digits(e) && byte_value(e) <= usize::MAX {
        Some(byte_value(e) as usize)
    } else {
        None
    }
}

proof fn lemma_byte_value_nonneg(d: Seq<u8>)
    requires
        byte_digits(d),
    ensures
        byte_value(d) >= 0,
    decreases d.len(),
{
    if d.len() > 0 {
        assert(byte_digits(d.drop_last())) by {
            assert forall|i: int| 0 <= i < d.drop_last().len() implies 48 <= #[trigger] d.drop_last()[i]
                <= 57 by {
                assert(d.drop_last()[i] == d[i]);
            }
        }
        lemma_byte_value_nonneg(d.drop_last());
        assert(48 <= d[d.len() - 1] <= 57);
    }
}

proof fn lemma_byte_prefix_exceeds(d: Seq<u8>, n: int, m: int)
    requires
        0 < n <= d.len(),
        0 <= m,
        byte_digits(d.take(n)),
        byte_value(d.take(n)) > m,
    ensures
        !(byte_digits(d) && byte_value(d) <= m),
    decreases d.len() - n,
{
    if byte_digits(d) {
        if n < d.len() {
            let t = d.take(n + 1);
            assert(t.drop_last() =~= d.take(n));
            assert(byte_digits(t)) by {
                assert forall|i: int| 0 <= i < t.len() implies 48 <= #[trigger] t[i] <= 57 by {
                    assert(t[i] == d[i]);
                }
            }
            lemma_byte_value_nonneg(d.take(n));
            assert(48 <= t[n] <= 57);
            lemma_byte_prefix_exceeds(d, n + 1, m);
        } else {
            assert(d.take(n) =~= d);
        }
    }
}

/// The number written in `b[from..to]`.
fn byte_number_in(b: &[u8], from: usize, to: usize) -> (r: Option<usize>)
    requires
        from <= to <= b@.len(),
    ensures
        r == byte_number(b@.subrange(from as int, to as int)),
{
    let ghost d = b@.subrange(from as int, to as int);
    let start: usize = if from < to && b[from] == 43 {
        from + 1
    } else {
        from
    };
    let ghost e = if d.len() > 0 && d[0] == 43 {
        d.drop_first()
    } else {
        d
    };
    assert(e =~= b@.subrange(start as int, to as int));
    if start >= to {
        return None;
    }
    let mut value: usize = 0;
    let mut i: usize = start;
    while i < to
        invariant
            start <= i <= to <= b@.len(),
            e == b@.subrange(start as int, to as int),
            e == (if d.len() > 0 && d[0] == 43 {
                d.drop_first()
            } else {
                d
            }),
            d == b@.subrange(from as int, to as int),
            byte_digits(b@.subrange(start as int, i as int)),
            value as int == byte_value(b@.subrange(start as int, i as int)),
        decreases to - i,
    {
        let c = b[i];
        let ghost prefix = b@.subrange(start as int, i + 1);
        assert(prefix.drop_last() =~= b@.subrange(start as int, i as int));
        assert(prefix.last() == c);
        if c < 48 || c > 57 {
            assert(e[i - start] == c);
            assert(!byte_digits(e));
            return None;
        }
        assert(byte_digits(prefix)) by {
            assert forall|k: int| 0 <= k < prefix.len() implies 48 <= #[trigger] prefix[k] <= 57 by {
                if k < prefix.len() - 1 {
                    assert(prefix[k] == b@.subrange(start as int, i as int)[k]);
                }
            }
        }
        let digit = (c - 48) as usize;
        match value.checked_mul(10) {
            Some(t) => match t.checked_add(digit) {
                Some(v) => {
                    value = v;
                },
                None => {
                    proof {
                        assert(prefix =~= e.take((i + 1 - start) as int));
                        lemma_byte_prefix_exceeds(e, (i + 1 - start) as int, usize::MAX as int);
                    }
                    return None;
                },
            },
            None => {
                proof {
                    assert(prefix =~= e.take((i + 1 - start) as int));
                    lemma_byte_prefix_exceeds(e, (i + 1 - start) as int, usize::MAX as int);
                }
                return None;
            },
        }
        i += 1;
    }
    assert(b@.subrange(start as int, i as int) =~= e);
    Some(value)
}

/// The first `c` in `b` at or after `from`.
pub open spec fn byte_at_or_after(b: Seq<u8>, from: int, c: u8) -> Option<int>
    decreases b.len() - from,
{
    if from < 0 || from >= b.len() {
        None
    } else if b[from] == c {
        Some(from)
    } else {
        byte_at_or_after(b, from + 1, c)
    }
}

/// The byte ranges of the parts an EDL body names from `pos` on: each
/// entry is `%len%` then `len` bytes of URL, entries separated by `;`;
/// reading stops at the first entry that does not have that shape.
pub open spec fn edl_ranges(b: Seq<u8>, pos: int) -> Seq<(int, int)>
    decreases b.len() - pos,
{
    if pos < 0 || pos >= b.len() || b[pos] != 37 {
        Seq::empty()
    } else {
        match byte_at_or_after(b, pos + 1, 37) {
            None => Seq::empty(),
            Some(q) => if q <= pos || q >= b.len() {
                Seq::empty()
            } else {
                match byte_number(b.subrange(pos + 1, q)) {
                    None => Seq::empty(),
                    Some(len) => {
                        let start = q + 1;
                        if b.len() - start < len {
                            Seq::empty()
                        } else {
                            let end = start + len;
                            let next = if end < b.len() && b[end] == 59 {
                                end + 1
                            } else {
                                end
                            };
                            seq![(start, end)] + edl_ranges(b, next)
                        }
                    },
                }
            },
        }
    }
}

/// Where the entries start: after an `edl://` prefix, if there is one.
pub open spec fn edl_start(b: Seq<u8>) -> int {
    if b.len() >= 6 && b.take(6) == seq![101u8, 100u8, 108u8, 58u8, 47u8, 47u8] {
        6
    } else {
        0
    }
}

pub open spec fn edl_parts(edl: Seq<char>) -> Seq<(int, int)> {
    edl_ranges(vstd::utf8::encode_utf8(edl), edl_start(vstd::utf8::encode_utf8(edl)))
}

/// Every part ends on a character boundary (slicing elsewhere would panic).
pub open spec fn edl_well_cut(edl: Seq<char>) -> bool {
    forall|k: int|
        0 <= k < edl_parts(edl).len() ==> exists|x: Seq<char>|
            vstd::utf8::encode_utf8(x) == vstd::utf8::encode_utf8(edl).subrange(
                (#[trigger] edl_parts(edl)[k]).0,
                edl_parts(edl)[k].1,
            )
}

fn byte_at(b: &[u8], from: usize, c: u8) -> (r: Option<usize>)
    requires
        from <= b@.len(),
    ensures
        match r {
            Some(q) => byte_at_or_after(b@, from as int, c) == Some(q as int),
            None => byte_at_or_after(b@, from as int, c) is None,
        },
        r matches Some(q) ==> from <= q < b@.len() && b@[q as int] == c,
{
    let mut i = from;
    while i < b.len()
        invariant
            from <= i <= b@.len(),
            byte_at_or_after(b@, from as int, c) == byte_at_or_after(b@, i as int, c),
        decreases b.len() - i,
    {
        if b[i] == c {
            return Some(i);
        }
        i += 1;
    }
    None
}

fn byte_copy(b: &[u8], from: usize, to: usize) -> (r: Vec<u8>)
    requires
        from <= to <= b@.len(),
    ensures
        r@ == b@.subrange(from as int, to as int),
{
    let mut out: Vec<u8> = Vec::new();
    let mut i = from;
    while i < to
        invariant
            from <= i <= to <= b@.len(),
            out@ == b@.subrange(from as int, i as int),
        decreases to - i,
    {
        out.push(b[i]);
        i += 1;
        assert(out@ =~= b@.subrange(from as int, i as int));
    }
    out
}

proof fn lemma_encode_concat(a: Seq<char>, b: Seq<char>)
    ensures
        vstd::utf8::encode_utf8(a + b) == vstd::utf8::encode_utf8(a) + vstd::utf8::encode_utf8(b),
    decreases a.len(),
{
    if a.len() == 0 {
        assert(a + b =~= b);
        assert(vstd::utf8::encode_utf8(a) =~= Seq::<u8>::empty());
        assert(vstd::utf8::encode_utf8(a + b) =~= vstd::utf8::encode_utf8(a) + vstd::utf8::encode_utf8(b));
    } else {
        lemma_encode_concat(a.drop_first(), b);
        assert((a + b).drop_first() =~= a.drop_first() + b);
        assert((a + b)[0] == a[0]);
        assert(vstd::utf8::encode_utf8(a + b) =~= vstd::utf8::encode_utf8(a) + vstd::utf8::encode_utf8(b));
    }
}

proof fn lemma_encode_ascii_char(c: char)
    requires
        '\0' <= c <= '\u{7f}',
    ensures
        vstd::utf8::encode_utf8(seq![c]) == seq![c as u8],
{
    assert(vstd::utf8::is_ascii_chars(seq![c]));
    vstd::utf8::is_ascii_chars_encode_utf8(seq![c]);
    assert(seq![c][0] == c);
    assert(vstd::utf8::encode_utf8(seq![c]) =~= seq![c as u8]);
}

/// A decimal spelling encodes to ASCII digits whose value is the number.
proof fn lemma_encode_decimal(n: nat)
    ensures
        vstd::utf8::encode_utf8(crate::text::decimal(n)).len() > 0,
        byte_digits(vstd::utf8::encode_utf8(crate::text::decimal(n))),
        byte_value(vstd::utf8::encode_utf8(crate::text::decimal(n))) == n,
    decreases n,
{
    let d = (n % 10) as int;
    let c = crate::text::digit_char(d);
    assert(c as u8 == 48 + d);
    lemma_encode_ascii_char(c);
    if n < 10 {
        assert(crate::text::decimal(n) == seq![c]);
        assert(byte_value(seq![c as u8]) == d) by {
            assert(seq![c as u8].drop_last() =~= Seq::<u8>::empty());
            assert(byte_value(Seq::<u8>::empty()) == 0);
            assert(seq![c as u8].last() == c as u8);
        }
    } else {
        let p = crate::text::decimal(n / 10);
        lemma_encode_decimal(n / 10);
        assert(crate::text::decimal(n) == p.push(c));
        assert(p.push(c) =~= p + seq![c]);
        lemma_encode_concat(p, seq![c]);
        let e = vstd::utf8::encode_utf8(p) + seq![c as u8];
        assert(vstd::utf8::encode_utf8(crate::text::decimal(n)) == e);
        assert(e.drop_last() =~= vstd::utf8::encode_utf8(p));
        assert(e.last() == c as u8);
        assert(byte_digits(e)) by {
            assert forall|i: int| 0 <= i < e.len() implies 48 <= #[trigger] e[i] <= 57 by {
                if i < e.len() - 1 {
                    assert(e[i] == vstd::utf8::encode_utf8(p)[i]);
                }
            }
        }
        assert(byte_value(e) == byte_value(vstd::utf8::encode_utf8(p)) * 10 + d);
        assert((n / 10) * 10 + n % 10 == n);
    }
}

proof fn lemma_byte_found(b: Seq<u8>, from: int, q: int, c: u8)
    requires
        0 <= from <= q < b.len(),
        b[q] == c,
        forall|i: int| from <= i < q ==> b[i] != c,
    ensures
        byte_at_or_after(b, from, c) == Some(q),
    decreases q - from,
{
    if from < q {
        lemma_byte_found(b, from + 1, q, c);
    }
}

/// The bytes of one EDL entry: `%`, the length's digits, `%`, the URL.
proof fn lemma_encode_edl_entry(u: Seq<char>)
    ensures
        vstd::utf8::encode_utf8(edl_entry(u)) == seq![37u8] + vstd::utf8::encode_utf8(
            crate::text::decimal(vstd::utf8::encode_utf8(u).len()),
        ) + seq![37u8] + vstd::utf8::encode_utf8(u),
{
    reveal_strlit("%");
    let dec = crate::text::decimal(vstd::utf8::encode_utf8(u).len());
    assert("%"@ =~= seq!['%']);
    lemma_encode_ascii_char('%');
    lemma_encode_concat("%"@, dec);
    lemma_encode_concat("%"@ + dec, "%"@);
    lemma_encode_concat("%"@ + dec + "%"@, u);
}

/// Reading one entry at `pos` gives the URL's byte range and moves past an
/// `;` that follows it.
proof fn lemma_edl_entry_read(b: Seq<u8>, pos: int, u: Seq<char>)
    requires
        0 <= pos,
        pos + vstd::utf8::encode_utf8(edl_entry(u)).len() <= b.len(),
        b.subrange(pos, pos + vstd::utf8::encode_utf8(edl_entry(u)).len())
            == vstd::utf8::encode_utf8(edl_entry(u)),
        vstd::utf8::encode_utf8(u).len() <= usize::MAX,
    ensures
        ({
            let end = pos + vstd::utf8::encode_utf8(edl_entry(u)).len();
            let start = end - vstd::utf8::encode_utf8(u).len();
            let next = if end < b.len() && b[end] == 59 {
                end + 1
            } else {
                end
            };
            &&& edl_ranges(b, pos) == seq![(start, end)] + edl_ranges(b, next)
            &&& b.subrange(start, end) == vstd::utf8::encode_utf8(u)
        }),
{
    let eu = vstd::utf8::encode_utf8(u);
    let len = eu.len();
    let dd = vstd::utf8::encode_utf8(crate::text::decimal(len));
    lemma_encode_decimal(len);
    lemma_encode_edl_entry(u);
    let ent = seq![37u8] + dd + seq![37u8] + eu;
    let end = pos + ent.len();
    let q = pos + 1 + dd.len();
    let start = q + 1;
    assert(b[pos] == ent[0]);
    assert(b[q] == ent[q - pos]);
    assert(ent[q - pos] == 37);
    assert forall|i: int| pos + 1 <= i < q implies b[i] != 37 by {
        assert(b[i] == ent[i - pos]);
        assert(ent[i - pos] == dd[i - pos - 1]);
    }
    lemma_byte_found(b, pos + 1, q, 37);
    assert(b.subrange(pos + 1, q) =~= dd) by {
        assert forall|i: int| 0 <= i < dd.len() implies b.subrange(pos + 1, q)[i] == dd[i] by {
            assert(b[pos + 1 + i] == ent[1 + i]);
        }
    }
    assert(dd[0] != 43) by {
        assert(48 <= dd[0] <= 57);
    }
    assert(byte_number(dd) == Some(len as usize));
    assert(end == start + len);
    assert(b.subrange(start, end) =~= eu) by {
        assert forall|i: int| 0 <= i < eu.len() implies b.subrange(start, end)[i] == eu[i] by {
            assert(b[start + i] == ent[start + i - pos]);
        }
    }
}

/// `edl_entries` read from the front: the first entry, `;`, the rest.
proof fn lemma_edl_entries_front(us: Seq<Seq<char>>)
    requires
        us.len() >= 2,
    ensures
        edl_entries(us) == edl_entry(us[0]) + ";"@ + edl_entries(us.drop_first()),
    decreases us.len(),
{
    if us.len() == 2 {
        assert(us.drop_last() =~= seq![us[0]]);
        assert(us.drop_first() =~= seq![us[1]]);
        assert(edl_entries(us.drop_last()) == edl_entry(us[0]));
        assert(edl_entries(us.drop_first()) == edl_entry(us[1]));
        assert(us.last() == us[1]);
    } else {
        lemma_edl_entries_front(us.drop_last());
        assert(us.drop_last().drop_first() =~= us.drop_first().drop_last());
        assert(us.drop_first().last() == us.last());
        assert(edl_entries(us) =~= edl_entry(us[0]) + ";"@ + edl_entries(us.drop_first()));
    }
}

/// The ranges read from `pos` on, where the rest of the bytes are the
/// entries of `us`, are the URLs of `us` in order.
proof fn lemma_edl_ranges_read(b: Seq<u8>, pos: int, us: Seq<Seq<char>>)
    requires
        us.len() >= 1,
        0 <= pos,
        pos + vstd::utf8::encode_utf8(edl_entries(us)).len() == b.len(),
        b.subrange(pos, b.len() as int) == vstd::utf8::encode_utf8(edl_entries(us)),
        forall|k: int| 0 <= k < us.len() ==> vstd::utf8::encode_utf8(#[trigger] us[k]).len() <= usize::MAX,
    ensures
        edl_ranges(b, pos).len() == us.len(),
        forall|k: int|
            0 <= k < us.len() ==> b.subrange(
                (#[trigger] edl_ranges(b, pos)[k]).0,
                edl_ranges(b, pos)[k].1,
            ) == vstd::utf8::encode_utf8(us[k]),
    decreases us.len(),
{
    let u = us[0];
    let ent = vstd::utf8::encode_utf8(edl_entry(u));
    let end = pos + ent.len();
    if us.len() == 1 {
        assert(edl_entries(us) == edl_entry(u));
        lemma_edl_entry_read(b, pos, u);
        assert(end == b.len());
        assert(edl_ranges(b, end) =~= Seq::<(int, int)>::empty());
        assert(edl_ranges(b, pos).len() == 1);
    } else {
        let rest = us.drop_first();
        lemma_edl_entries_front(us);
        reveal_strlit(";");
        assert(";"@ =~= seq![';']);
        lemma_encode_ascii_char(';');
        lemma_encode_concat(edl_entry(u), ";"@);
        lemma_encode_concat(edl_entry(u) + ";"@, edl_entries(rest));
        let er = vstd::utf8::encode_utf8(edl_entries(rest));
        assert(vstd::utf8::encode_utf8(edl_entries(us)) == ent + seq![59u8] + er);
        let whole = ent + seq![59u8] + er;
        assert(b.subrange(pos, end) =~= ent) by {
            assert forall|i: int| 0 <= i < ent.len() implies b.subrange(pos, end)[i] == ent[i] by {
                assert(b[pos + i] == b.subrange(pos, b.len() as int)[i]);
                assert(whole[i] == ent[i]);
            }
        }
        assert(b[end] == 59) by {
            assert(b[end] == b.subrange(pos, b.len() as int)[end - pos]);
            assert(whole[end - pos] == 59);
        }
        assert(b.subrange(end + 1, b.len() as int) =~= er) by {
            assert forall|i: int| 0 <= i < er.len() implies b.subrange(end + 1, b.len() as int)[i] == er[i] by {
                assert(b[end + 1 + i] == b.subrange(pos, b.len() as int)[end + 1 + i - pos]);
                assert(whole[end + 1 + i - pos] == er[i]);
            }
        }
        assert forall|k: int| 0 <= k < rest.len() implies vstd::utf8::encode_utf8(
            #[trigger] rest[k],
        ).len() <= usize::MAX by {
            assert(rest[k] == us[k + 1]);
        }
        lemma_edl_entry_read(b, pos, u);
        lemma_edl_ranges_read(b, end + 1, rest);
        let head = seq![(end - vstd::utf8::encode_utf8(u).len(), end)];
        assert(edl_ranges(b, pos) == head + edl_ranges(b, end + 1));
        assert forall|k: int| 0 <= k < us.len() implies b.subrange(
            (#[trigger] edl_ranges(b, pos)[k]).0,
            edl_ranges(b, pos)[k].1,
        ) == vstd::utf8::encode_utf8(us[k]) by {
            if k > 0 {
                assert(edl_ranges(b, pos)[k] == edl_ranges(b, end + 1)[k - 1]);
                assert(us[k] == rest[k - 1]);
            }
        }
    }
}

/// An `edl://` URL written from part URLs reads back as exactly those URLs,
/// in order, each cut on a character boundary: the playback preflight checks
/// the very URLs the player opens.
pub proof fn law_edl_round_trip(us: Seq<Seq<char>>)
    requires
        us.len() >= 1,
        forall|k: int| 0 <= k < us.len() ==> vstd::utf8::encode_utf8(#[trigger] us[k]).len() <= usize::MAX,
    ensures
        ({
            let edl = "edl://"@ + edl_entries(us);
            &&& edl_well_cut(edl)
            &&& edl_parts(edl).len() == us.len()
            &&& forall|k: int|
                0 <= k < us.len() ==> vstd::utf8::encode_utf8(edl).subrange(
                    (#[trigger] edl_parts(edl)[k]).0,
                    edl_parts(edl)[k].1,
                ) == vstd::utf8::encode_utf8(us[k])
        }),
{
    reveal_strlit("edl://");
    let pre = "edl://"@;
    let edl = pre + edl_entries(us);
    lemma_encode_concat(pre, edl_entries(us));
    vstd::utf8::is_ascii_chars_encode_utf8(pre);
    let pb = vstd::utf8::encode_utf8(pre);
    let b = vstd::utf8::encode_utf8(edl);
    let eb = vstd::utf8::encode_utf8(edl_entries(us));
    assert(b == pb + eb);
    assert(pb =~= seq![101u8, 100u8, 108u8, 58u8, 47u8, 47u8]) by {
        assert(pb.len() == 6);
        assert(pb[0] == pre[0] as u8);
        assert(pb[1] == pre[1] as u8);
        assert(pb[2] == pre[2] as u8);
        assert(pb[3] == pre[3] as u8);
        assert(pb[4] == pre[4] as u8);
        assert(pb[5] == pre[5] as u8);
    }
    assert(b.take(6) =~= pb);
    assert(edl_start(b) == 6);
    assert(b.subrange(6, b.len() as int) =~= eb);
    lemma_edl_ranges_read(b, 6, us);
    assert(edl_parts(edl) == edl_ranges(b, 6));
    assert forall|k: int| 0 <= k < edl_parts(edl).len() implies exists|x: Seq<char>|
        vstd::utf8::encode_utf8(x) == b.subrange(
            (#[trigger] edl_parts(edl)[k]).0,
            edl_parts(edl)[k].1,
        ) by {
        assert(vstd::utf8::encode_utf8(us[k]) == b.subrange(edl_parts(edl)[k].0, edl_parts(edl)[k].1));
    }
}

proof fn lemma_part_urls_len(base: Seq<char>, parts: Seq<crate::plex_library::PlexDetailPart>, token: Seq<char>)
    requires
        crate::plex_library::part_urls_of(base, parts, token) is Some,
    ensures
        crate::plex_library::part_urls_of(base, parts, token)->0.len() == parts.len(),
    decreases parts.len(),
{
    if parts.len() > 0 {
        lemma_part_urls_len(base, parts.drop_last(), token);
    }
}

/// A media version of several parts plays from an `edl://` URL, and the
/// preflight reads that URL back as the version's part URLs, in order.
pub proof fn law_media_edl_reads_back(
    base: Seq<char>,
    parts: Seq<crate::plex_library::PlexDetailPart>,
    token: Seq<char>,
)
    requires
        parts.len() >= 2,
        crate::plex_library::media_play_url(base, parts, token) is Some,
        forall|k: int|
            0 <= k < parts.len() ==> vstd::utf8::encode_utf8(
                #[trigger] crate::plex_library::part_urls_of(base, parts, token)->0[k],
            ).len() <= usize::MAX,
    ensures
        ({
            let u = crate::plex_library::media_play_url(base, parts, token)->0;
            let us = crate::plex_library::part_urls_of(base, parts, token)->0;
            &&& crate::text::starts_with(u, "edl://"@)
            &&& edl_well_cut(u)
            &&& edl_parts(u).len() == parts.len()
            &&& forall|k: int|
                0 <= k < parts.len() ==> vstd::utf8::decode_utf8(
                    vstd::utf8::encode_utf8(u).subrange(
                        (#[trigger] edl_parts(u)[k]).0,
                        edl_parts(u)[k].1,
                    ),
                ) == us[k]
        }),
{
    let us = crate::plex_library::part_urls_of(base, parts, token)->0;
    lemma_part_urls_len(base, parts, token);
    let u = "edl://"@ + crate::plex_library::edl_entries(us);
    assert(crate::plex_library::media_play_url(base, parts, token) == Some(u));
    reveal_strlit("edl://");
    assert(u.take(6) =~= "edl://"@);
    law_edl_round_trip(us);
    assert forall|k: int| 0 <= k < parts.len() implies vstd::utf8::decode_utf8(
        vstd::utf8::encode_utf8(u).subrange(
            (#[trigger] edl_parts(u)[k]).0,
            edl_parts(u)[k].1,
        ),
    ) == us[k] by {
        vstd::utf8::encode_utf8_decode_utf8(us[k]);
    }
}

/// The part URLs an `edl://` play URL wraps, for the playback preflight.
pub fn edl_part_urls(edl: &str) -> (r: Vec<String>)
    requires
        edl_well_cut(edl@),
    ensures
        r@.len() == edl_parts(edl@).len(),
        forall|k: int|
            0 <= k < r@.len() ==> vstd::utf8::encode_utf8((#[trigger] r@[k])@)
                == vstd::utf8::encode_utf8(edl@).subrange(edl_parts(edl@)[k].0, edl_parts(edl@)[k].1),
{
    let b = edl.as_bytes();
    let ghost bs = b@;
    assert(bs == vstd::utf8::encode_utf8(edl@));
    let mut pos: usize = if b.len() >= 6 && b[0] == 101 && b[1] == 100 && b[2] == 108 && b[3] == 58
        && b[4] == 47 && b[5] == 47 {
        6
    } else {
        0
    };
    proof {
        if b@.len() >= 6 {
            if b[0] == 101 && b[1] == 100 && b[2] == 108 && b[3] == 58 && b[4] == 47 && b[5] == 47 {
                assert(b@.take(6) =~= seq![101u8, 100u8, 108u8, 58u8, 47u8, 47u8]);
            } else {
                if b@.take(6) == seq![101u8, 100u8, 108u8, 58u8, 47u8, 47u8] {
                    assert(b@.take(6)[0] == b@[0]);
                    assert(b@.take(6)[1] == b@[1]);
                    assert(b@.take(6)[2] == b@[2]);
                    assert(b@.take(6)[3] == b@[3]);
                    assert(b@.take(6)[4] == b@[4]);
                    assert(b@.take(6)[5] == b@[5]);
                }
            }
        }
    }
    assert(pos == edl_start(bs));
    let mut urls: Vec<String> = Vec::new();
    let ghost parts = edl_parts(edl@);
    loop
        invariant_except_break
            bs == b@,
            bs == vstd::utf8::encode_utf8(edl@),
            parts == edl_parts(edl@),
            edl_well_cut(edl@),
            pos <= bs.len(),
            urls@.len() <= parts.len(),
            parts.skip(urls@.len() as int) == edl_ranges(bs, pos as int),
            forall|k: int|
                0 <= k < urls@.len() ==> vstd::utf8::encode_utf8((#[trigger] urls@[k])@) == bs.subrange(
                    parts[k].0,
                    parts[k].1,
                ),
        ensures
            urls@.len() == parts.len(),
            forall|k: int|
                0 <= k < urls@.len() ==> vstd::utf8::encode_utf8((#[trigger] urls@[k])@) == bs.subrange(
                    parts[k].0,
                    parts[k].1,
                ),
        decreases bs.len() - pos,
    {
        let ghost n = urls@.len() as int;
        if pos >= b.len() || b[pos] != 37 {
            assert(parts.skip(n).len() == 0);
            break;
        }
        let q = match byte_at(b, pos + 1, 37) {
            Some(q) => q,
            None => {
                assert(parts.skip(n).len() == 0);
                break;
            },
        };
        let len = match byte_number_in(b, pos + 1, q) {
            Some(len) => len,
            None => {
                assert(parts.skip(n).len() == 0);
                break;
            },
        };
        let start = q + 1;
        if b.len() - start < len {
            assert(parts.skip(n).len() == 0);
            break;
        }
        let end = start + len;
        let next = if end < b.len() && b[end] == 59 {
            end + 1
        } else {
            end
        };
        let ghost rest = seq![(start as int, end as int)] + edl_ranges(bs, next as int);
        assert(edl_ranges(bs, pos as int) == rest);
        assert(parts.skip(n) == rest);
        assert(parts.skip(n)[0] == (start as int, end as int));
        assert(parts.skip(n + 1) =~= parts.skip(n).skip(1));
        assert(rest.skip(1) =~= edl_ranges(bs, next as int));
        assert(parts[n] == (start as int, end as int));
        let bytes = byte_copy(b, start, end);
        let url = match crate::source::smb_vfs::utf8_string(bytes) {
            Some(u) => u,
            None => {
                proof {
                    assert(exists|x: Seq<char>| vstd::utf8::encode_utf8(x) == bs.subrange(
                        parts[n].0,
                        parts[n].1,
                    ));
                }
                assert(false);
                break;
            },
        };
        urls.push(url);
        pos = next;
    }
    urls
}

/// The URLs a playback preflight checks: every part of an `edl://` URL, an
/// `http(s)` URL itself, and nothing for a local path.
pub fn preflight_targets(url: &str) -> (r: Vec<String>)
    requires
        crate::text::starts_with(url@, "edl://"@) ==> edl_well_cut(url@),
    ensures
        crate::text::starts_with(url@, "edl://"@) ==> r@.len() == edl_parts(url@).len() && forall|
            k: int,
        |
            0 <= k < r@.len() ==> vstd::utf8::encode_utf8((#[trigger] r@[k])@)
                == vstd::utf8::encode_utf8(url@).subrange(edl_parts(url@)[k].0, edl_parts(url@)[k].1),
        !crate::text::starts_with(url@, "edl://"@) && crate::text::starts_with(url@, "http"@)
            ==> crate::text::strings_view(r@) == seq![url@],
        !crate::text::starts_with(url@, "edl://"@) && !crate::text::starts_with(url@, "http"@)
            ==> r@.len() == 0,
{
    if crate::text::starts_with_str(url, "edl://") {
        edl_part_urls(url)
    } else if crate::text::starts_with_str(url, "http") {
        let mut v: Vec<String> = Vec::new();
        v.push(url.to_string());
        assert(crate::text::strings_view(v@) =~= seq![url@]);
        v
    } else {
        Vec::new()
    }
}

} // verus!
