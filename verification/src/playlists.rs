//! Vela-native, cross-source playlists: the store and the operations on it.
//!
//! Entries keep full item snapshots so mixed-source routing, artwork and
//! episode labels need no lossy reconstruction. Every operation either
//! succeeds as stated or fails with the store left exactly as it was.

use vstd::prelude::*;
use crate::recents::opt_int;
use crate::seqs::{
    first_match, lemma_filter_take_step, lemma_first_match_found, lemma_first_match_none,
    lemma_first_match_props,
};
use crate::source::{copy_opt, item_rekeyed, rekey_item_source, ItemDto, ItemView};
use crate::text::{
    chars_of, concat, decimal, decimal_string, opt_view, split_once, split_once_str, str_eq,
    trim, trim_chars, string_of,
};

verus! {

broadcast use vstd::string::group_string_axioms;

/// The store format this code reads and writes.
pub const SCHEMA_VERSION: u32 = 1;

/// Longest playlist name, in characters.
pub const MAX_NAME_CHARS: usize = 120;

/// The persisted playlist store.
#[derive(Debug, Clone)]
pub struct PlaylistFile {
    pub schema_version: u32,
    pub playlists: Vec<Playlist>,
}

/// One playlist.
#[derive(Debug, Clone)]
pub struct Playlist {
    pub id: String,
    pub name: String,
    pub items: Vec<PlaylistEntry>,
    pub created_ms: u64,
    pub updated_ms: u64,
}

/// One entry of a playlist.
#[derive(Debug, Clone)]
pub struct PlaylistEntry {
    /// Stable even when the same title appears more than once.
    pub id: String,
    pub item: ItemDto,
    /// Display context retained after the source configuration is removed.
    pub source_name: Option<String>,
}

/// A playlist in the sidebar list.
#[derive(Debug, Clone)]
pub struct PlaylistSummary {
    pub id: String,
    pub name: String,
    pub item_count: usize,
    pub created_ms: u64,
    pub updated_ms: u64,
}

/// A playlist as the page renders it.
#[derive(Debug, Clone)]
pub struct PlaylistView {
    pub id: String,
    pub name: String,
    pub items: Vec<PlaylistEntryView>,
    pub created_ms: u64,
    pub updated_ms: u64,
}

/// An entry as the page renders it.
#[derive(Debug, Clone)]
pub struct PlaylistEntryView {
    pub id: String,
    pub item: ItemDto,
    pub source_name: Option<String>,
    /// Read-time routing availability only.
    pub available: bool,
}

/// The abstract content of a [`PlaylistEntry`].
pub struct EntryState {
    pub id: Seq<char>,
    pub item: ItemView,
    pub source_name: Option<Seq<char>>,
}

/// The abstract content of a [`Playlist`].
pub struct PlaylistState {
    pub id: Seq<char>,
    pub name: Seq<char>,
    pub items: Seq<EntryState>,
    pub created_ms: u64,
    pub updated_ms: u64,
}

impl View for PlaylistEntry {
    type V = EntryState;

    open spec fn view(&self) -> EntryState {
        EntryState { id: self.id@, item: self.item@, source_name: opt_view(self.source_name) }
    }
}

pub open spec fn entries_state(v: Seq<PlaylistEntry>) -> Seq<EntryState> {
    v.map_values(|e: PlaylistEntry| e@)
}

impl View for Playlist {
    type V = PlaylistState;

    open spec fn view(&self) -> PlaylistState {
        PlaylistState {
            id: self.id@,
            name: self.name@,
            items: entries_state(self.items@),
            created_ms: self.created_ms,
            updated_ms: self.updated_ms,
        }
    }
}

pub open spec fn playlists_state(v: Seq<Playlist>) -> Seq<PlaylistState> {
    v.map_values(|p: Playlist| p@)
}

/// The playlists of a store.
pub open spec fn store_of(f: PlaylistFile) -> Seq<PlaylistState> {
    playlists_state(f.playlists@)
}

impl Default for PlaylistFile {
    fn default() -> (r: Self)
        ensures
            r.schema_version == SCHEMA_VERSION,
            r.playlists@.len() == 0,
    {
        PlaylistFile { schema_version: SCHEMA_VERSION, playlists: Vec::new() }
    }
}

impl PlaylistEntry {
    pub fn duplicate(&self) -> (r: Self)
        ensures
            r@ == self@,
    {
        PlaylistEntry {
            id: self.id.clone(),
            item: self.item.duplicate(),
            source_name: copy_opt(&self.source_name),
        }
    }
}

fn copy_entries(v: &Vec<PlaylistEntry>) -> (r: Vec<PlaylistEntry>)
    ensures
        entries_state(r@) == entries_state(v@),
{
    let mut r: Vec<PlaylistEntry> = Vec::new();
    let mut i: usize = 0;
    while i < v.len()
        invariant
            i <= v.len(),
            entries_state(r@) == entries_state(v@).take(i as int),
        decreases v.len() - i,
    {
        let ghost before = r@;
        r.push(v[i].duplicate());
        assert(entries_state(r@) =~= entries_state(before).push(v@[i as int]@));
        assert(entries_state(v@).take(i + 1) =~= entries_state(v@).take(i as int).push(
            v@[i as int]@,
        ));
        i += 1;
    }
    assert(entries_state(v@).take(i as int) =~= entries_state(v@));
    r
}

impl Playlist {
    pub fn duplicate(&self) -> (r: Self)
        ensures
            r@ == self@,
    {
        Playlist {
            id: self.id.clone(),
            name: self.name.clone(),
            items: copy_entries(&self.items),
            created_ms: self.created_ms,
            updated_ms: self.updated_ms,
        }
    }
}

// ---- the rules ------------------------------------------------------------------

/// Position of the playlist with this id.
pub open spec fn find_pos(ps: Seq<PlaylistState>, id: Seq<char>) -> Option<int> {
    first_match(ps, |p: PlaylistState| p.id == id)
}

/// Why a playlist name is refused, if it is.
pub open spec fn name_error(name: Seq<char>) -> Option<Seq<char>> {
    if trim(name).len() == 0 {
        Some("playlist name cannot be empty"@)
    } else if trim(name).len() > MAX_NAME_CHARS {
        Some("playlist name cannot exceed 120 characters"@)
    } else {
        None
    }
}

/// Why an item cannot go into a playlist, if it cannot: it needs a
/// source-namespaced key and a source, and must be playable itself.
pub open spec fn item_error(item: ItemView) -> Option<Seq<char>> {
    if split_once(item.rating_key, ':') is None || trim(item.source_id).len() == 0 {
        Some("playlist items need a routable source key"@)
    } else if item.media_type == Some("show"@) || item.media_type == Some("season"@) {
        Some("only playable items can be added to a playlist"@)
    } else {
        None
    }
}

/// The first refusal among entries, in order.
pub open spec fn entries_error(es: Seq<EntryState>) -> Option<Seq<char>>
    decreases es.len(),
{
    if es.len() == 0 {
        None
    } else {
        match item_error(es[0].item) {
            Some(e) => Some(e),
            None => entries_error(es.drop_first()),
        }
    }
}

/// A fresh, empty playlist.
pub open spec fn fresh_playlist(id: Seq<char>, name: Seq<char>, now: u64) -> PlaylistState {
    PlaylistState { id, name: trim(name), items: Seq::empty(), created_ms: now, updated_ms: now }
}

/// What an operation leaves: the new playlists and the position of the one
/// it returns, or the refusal.
pub open spec fn create_outcome(ps: Seq<PlaylistState>, id: Seq<char>, name: Seq<char>, now: u64) -> Result<
    (Seq<PlaylistState>, int),
    Seq<char>,
> {
    match name_error(name) {
        Some(e) => Err(e),
        None => Ok((ps.push(fresh_playlist(id, name, now)), ps.len() as int)),
    }
}

pub open spec fn rename_outcome(ps: Seq<PlaylistState>, id: Seq<char>, name: Seq<char>, now: u64) -> Result<
    (Seq<PlaylistState>, int),
    Seq<char>,
> {
    match name_error(name) {
        Some(e) => Err(e),
        None => match find_pos(ps, id) {
            None => Err("playlist not found"@),
            Some(i) => Ok(
                (ps.update(i, PlaylistState { name: trim(name), updated_ms: now, ..ps[i] }), i),
            ),
        },
    }
}

pub open spec fn add_outcome(
    ps: Seq<PlaylistState>,
    id: Seq<char>,
    es: Seq<EntryState>,
    now: u64,
) -> Result<(Seq<PlaylistState>, int), Seq<char>> {
    if es.len() == 0 {
        Err("choose at least one item"@)
    } else {
        match entries_error(es) {
            Some(e) => Err(e),
            None => match find_pos(ps, id) {
                None => Err("playlist not found"@),
                Some(i) => Ok(
                    (
                        ps.update(
                            i,
                            PlaylistState { items: ps[i].items + es, updated_ms: now, ..ps[i] },
                        ),
                        i,
                    ),
                ),
            },
        }
    }
}

pub open spec fn remove_outcome(
    ps: Seq<PlaylistState>,
    id: Seq<char>,
    entry_id: Seq<char>,
    now: u64,
) -> Result<(Seq<PlaylistState>, int), Seq<char>> {
    match find_pos(ps, id) {
        None => Err("playlist not found"@),
        Some(i) => if !(exists|k: int|
            0 <= k < ps[i].items.len() && #[trigger] ps[i].items[k].id == entry_id) {
            Err("playlist item not found"@)
        } else {
            Ok(
                (
                    ps.update(
                        i,
                        PlaylistState {
                            items: ps[i].items.filter(|e: EntryState| e.id != entry_id),
                            updated_ms: now,
                            ..ps[i]
                        },
                    ),
                    i,
                ),
            )
        },
    }
}

/// The entry moved from `from` to `to`.
pub open spec fn moved(items: Seq<EntryState>, from: int, to: int) -> Seq<EntryState> {
    items.remove(from).insert(to, items[from])
}

pub open spec fn reorder_outcome(
    ps: Seq<PlaylistState>,
    id: Seq<char>,
    entry_id: Seq<char>,
    to: int,
    now: u64,
) -> Result<(Seq<PlaylistState>, int), Seq<char>> {
    match find_pos(ps, id) {
        None => Err("playlist not found"@),
        Some(i) => match first_match(ps[i].items, |e: EntryState| e.id == entry_id) {
            None => Err("playlist item not found"@),
            Some(from) => if to >= ps[i].items.len() {
                Err("playlist position is out of range"@)
            } else if from == to {
                Ok((ps, i))
            } else {
                Ok(
                    (
                        ps.update(
                            i,
                            PlaylistState {
                                items: moved(ps[i].items, from, to),
                                updated_ms: now,
                                ..ps[i]
                            },
                        ),
                        i,
                    ),
                )
            },
        },
    }
}

/// The store ends as the outcome says and the returned playlist is the one
/// at its position; a refusal leaves the store as it was.
pub open spec fn follows(
    before: PlaylistFile,
    after: PlaylistFile,
    r: Result<Playlist, String>,
    outcome: Result<(Seq<PlaylistState>, int), Seq<char>>,
) -> bool {
    &&& after.schema_version == before.schema_version
    &&& match outcome {
        Ok((ps, i)) => store_of(after) == ps && (r matches Ok(p) && p@ == ps[i]),
        Err(e) => after == before && (r matches Err(m) && m@ == e),
    }
}

// ---- executable operations ------------------------------------------------------

fn position_of(ps: &Vec<Playlist>, id: &str) -> (r: Option<usize>)
    ensures
        opt_int(r) == find_pos(playlists_state(ps@), id@),
        r matches Some(i) ==> i < ps.len(),
{
    let ghost s = playlists_state(ps@);
    let ghost p = |q: PlaylistState| q.id == id@;
    let mut i: usize = 0;
    while i < ps.len()
        invariant
            i <= ps.len(),
            s == playlists_state(ps@),
            p == (|q: PlaylistState| q.id == id@),
            forall|k: int| 0 <= k < i ==> !p(#[trigger] s[k]),
        decreases ps.len() - i,
    {
        assert(s[i as int] == ps@[i as int]@);
        if str_eq(ps[i].id.as_str(), id) {
            proof {
                lemma_first_match_found(s, p, i as int);
            }
            return Some(i);
        }
        i += 1;
    }
    proof {
        lemma_first_match_none(s, p);
    }
    None
}

fn entry_position(items: &Vec<PlaylistEntry>, entry_id: &str) -> (r: Option<usize>)
    ensures
        opt_int(r) == first_match(entries_state(items@), |e: EntryState| e.id == entry_id@),
        r matches Some(i) ==> i < items.len() && entries_state(items@)[i as int].id == entry_id@,
        r is None ==> forall|k: int|
            0 <= k < items.len() ==> #[trigger] entries_state(items@)[k].id != entry_id@,
{
    let ghost s = entries_state(items@);
    let ghost p = |e: EntryState| e.id == entry_id@;
    let mut i: usize = 0;
    while i < items.len()
        invariant
            i <= items.len(),
            s == entries_state(items@),
            p == (|e: EntryState| e.id == entry_id@),
            forall|k: int| 0 <= k < i ==> !p(#[trigger] s[k]),
        decreases items.len() - i,
    {
        assert(s[i as int] == items@[i as int]@);
        if str_eq(items[i].id.as_str(), entry_id) {
            proof {
                lemma_first_match_found(s, p, i as int);
            }
            return Some(i);
        }
        i += 1;
    }
    proof {
        lemma_first_match_none(s, p);
    }
    None
}

/// The trimmed name, or why it is refused.
fn validated_name(name: String) -> (r: Result<String, String>)
    ensures
        match name_error(name@) {
            Some(e) => r matches Err(m) && m@ == e,
            None => r matches Ok(t) && t@ == trim(name@),
        },
{
    let t = trim_chars(&chars_of(name.as_str()));
    if t.len() == 0 {
        return Err("playlist name cannot be empty".to_string());
    }
    if t.len() > MAX_NAME_CHARS {
        return Err("playlist name cannot exceed 120 characters".to_string());
    }
    Ok(string_of(t.as_slice()))
}

/// Replace the playlist at `i`.
fn put_playlist(ps: &mut Vec<Playlist>, i: usize, p: Playlist)
    requires
        i < old(ps).len(),
    ensures
        playlists_state(final(ps)@) == playlists_state(old(ps)@).update(i as int, p@),
{
    let ghost pv = p@;
    let ghost s = playlists_state(ps@);
    ps.remove(i);
    ps.insert(i, p);
    assert(playlists_state(ps@) =~= s.update(i as int, pv));
}

/// Refuse a store of another format.
pub fn validate_file(file: &PlaylistFile) -> (r: Result<(), String>)
    ensures
        file.schema_version == SCHEMA_VERSION <==> r is Ok,
        r matches Err(m) ==> m@ == "unsupported playlist schema version "@ + decimal(
            file.schema_version as nat,
        ),
{
    if file.schema_version != SCHEMA_VERSION {
        let n = decimal_string(file.schema_version as u64);
        return Err(concat("unsupported playlist schema version ", n.as_str()));
    }
    Ok(())
}

/// Accept a parsed store, refusing another format.
pub fn load(file: PlaylistFile) -> (r: Result<PlaylistFile, String>)
    ensures
        file.schema_version == SCHEMA_VERSION ==> r == Ok::<PlaylistFile, String>(file),
        file.schema_version != SCHEMA_VERSION ==> (r matches Err(m) && m@
            == "unsupported playlist schema version "@ + decimal(file.schema_version as nat)),
{
    match validate_file(&file) {
        Ok(()) => Ok(file),
        Err(e) => Err(e),
    }
}

/// The sidebar list: one summary per playlist, in store order.
pub fn list(file: &PlaylistFile) -> (r: Vec<PlaylistSummary>)
    ensures
        r.len() == file.playlists.len(),
        forall|i: int|
            0 <= i < r.len() ==> {
                let p = #[trigger] store_of(*file)[i];
                &&& r@[i].id@ == p.id
                &&& r@[i].name@ == p.name
                &&& r@[i].item_count == p.items.len()
                &&& r@[i].created_ms == p.created_ms
                &&& r@[i].updated_ms == p.updated_ms
            },
{
    let ghost s = store_of(*file);
    let mut out: Vec<PlaylistSummary> = Vec::new();
    let mut i: usize = 0;
    while i < file.playlists.len()
        invariant
            i <= file.playlists.len(),
            s == store_of(*file),
            out.len() == i,
            forall|k: int|
                0 <= k < i ==> {
                    let p = #[trigger] s[k];
                    &&& out@[k].id@ == p.id
                    &&& out@[k].name@ == p.name
                    &&& out@[k].item_count == p.items.len()
                    &&& out@[k].created_ms == p.created_ms
                    &&& out@[k].updated_ms == p.updated_ms
                },
        decreases file.playlists.len() - i,
    {
        let p = &file.playlists[i];
        assert(s[i as int] == p@);
        out.push(
            PlaylistSummary {
                id: p.id.clone(),
                name: p.name.clone(),
                item_count: p.items.len(),
                created_ms: p.created_ms,
                updated_ms: p.updated_ms,
            },
        );
        i += 1;
    }
    out
}

/// The playlist with this id.
pub fn get(file: &PlaylistFile, id: &str) -> (r: Result<Playlist, String>)
    ensures
        match find_pos(store_of(*file), id@) {
            Some(i) => r matches Ok(p) && p@ == store_of(*file)[i],
            None => r matches Err(m) && m@ == "playlist not found"@,
        },
{
    match position_of(&file.playlists, id) {
        Some(i) => {
            assert(store_of(*file)[i as int] == file.playlists@[i as int]@);
            Ok(file.playlists[i].duplicate())
        },
        None => Err("playlist not found".to_string()),
    }
}

/// Create an empty playlist with a trimmed, non-empty name of at most
/// [`MAX_NAME_CHARS`] characters.
pub fn create(file: &mut PlaylistFile, id: String, name: String, now_ms: u64) -> (r: Result<
    Playlist,
    String,
>)
    ensures
        follows(*old(file), *final(file), r, create_outcome(store_of(*old(file)), id@, name@, now_ms)),
{
    let ghost s = store_of(*file);
    let name = match validated_name(name) {
        Ok(n) => n,
        Err(e) => return Err(e),
    };
    let playlist = Playlist { id, name, items: Vec::new(), created_ms: now_ms, updated_ms: now_ms };
    assert(entries_state(playlist.items@) =~= Seq::<EntryState>::empty());
    let out = playlist.duplicate();
    file.playlists.push(playlist);
    assert(store_of(*file) =~= s.push(out@));
    Ok(out)
}

/// Rename a playlist; the name is checked before the playlist is looked up.
pub fn rename(file: &mut PlaylistFile, id: &str, name: String, now_ms: u64) -> (r: Result<
    Playlist,
    String,
>)
    ensures
        follows(*old(file), *final(file), r, rename_outcome(store_of(*old(file)), id@, name@, now_ms)),
{
    let name = match validated_name(name) {
        Ok(n) => n,
        Err(e) => return Err(e),
    };
    let i = match position_of(&file.playlists, id) {
        Some(i) => i,
        None => return Err("playlist not found".to_string()),
    };
    let mut p = file.playlists[i].duplicate();
    p.name = name;
    p.updated_ms = now_ms;
    let out = p.duplicate();
    put_playlist(&mut file.playlists, i, p);
    Ok(out)
}

/// Delete every playlist with this id; refused when there is none.
pub fn delete(file: &mut PlaylistFile, id: &str) -> (r: Result<(), String>)
    ensures
        final(file).schema_version == old(file).schema_version,
        match find_pos(store_of(*old(file)), id@) {
            Some(_) => r is Ok && store_of(*final(file)) == store_of(*old(file)).filter(
                |p: PlaylistState| p.id != id@,
            ),
            None => r matches Err(m) && m@ == "playlist not found"@ && *final(file) == *old(file),
        },
{
    let ghost s = store_of(*file);
    if position_of(&file.playlists, id).is_none() {
        return Err("playlist not found".to_string());
    }
    let ghost pk = |p: PlaylistState| p.id != id@;
    let mut rest: Vec<Playlist> = Vec::new();
    std::mem::swap(&mut rest, &mut file.playlists);
    let mut out: Vec<Playlist> = Vec::new();
    let ghost mut j: int = 0;
    while rest.len() > 0
        invariant
            0 <= j <= s.len(),
            rest.len() == s.len() - j,
            playlists_state(rest@) == s.skip(j),
            playlists_state(out@) == s.take(j).filter(pk),
            pk == (|p: PlaylistState| p.id != id@),
        decreases rest.len(),
    {
        let ghost raw = rest@;
        let p = rest.remove(0);
        proof {
            assert(playlists_state(rest@) =~= playlists_state(raw).skip(1));
            assert(playlists_state(raw)[0] == p@);
            assert(s.skip(j)[0] == s[j]);
            assert(s.skip(j).skip(1) =~= s.skip(j + 1));
            lemma_filter_take_step(s, pk, j);
        }
        if !str_eq(p.id.as_str(), id) {
            let ghost before = out@;
            out.push(p);
            assert(playlists_state(out@) =~= playlists_state(before).push(s[j]));
        }
        proof {
            j = j + 1;
        }
    }
    assert(s.take(j) =~= s);
    file.playlists = out;
    Ok(())
}

/// Accept an item into a playlist only when it can be routed and played.
pub fn validate_item(item: &ItemDto) -> (r: Result<(), String>)
    ensures
        match item_error(item@) {
            Some(e) => r matches Err(m) && m@ == e,
            None => r is Ok,
        },
{
    let routable = split_once_str(item.rating_key.as_str(), ':').is_some();
    let source = trim_chars(&chars_of(item.source_id.as_str()));
    if !routable || source.len() == 0 {
        return Err("playlist items need a routable source key".to_string());
    }
    let container = match &item.media_type {
        Some(m) => str_eq(m.as_str(), "show") || str_eq(m.as_str(), "season"),
        None => false,
    };
    if container {
        return Err("only playable items can be added to a playlist".to_string());
    }
    Ok(())
}

proof fn lemma_entries_error_prefix(es: Seq<EntryState>, i: int)
    requires
        0 <= i < es.len(),
        forall|k: int| 0 <= k < i ==> item_error(#[trigger] es[k].item) is None,
    ensures
        entries_error(es) == entries_error(es.skip(i)),
    decreases i,
{
    if i > 0 {
        assert(item_error(es[0].item) is None);
        let d = es.drop_first();
        assert forall|k: int| 0 <= k < i - 1 implies item_error(#[trigger] d[k].item) is None by {
            assert(d[k] == es[k + 1]);
        }
        lemma_entries_error_prefix(d, i - 1);
        assert(d.skip(i - 1) =~= es.skip(i));
    } else {
        assert(es.skip(0) =~= es);
    }
}

proof fn lemma_entries_error_none(es: Seq<EntryState>)
    requires
        forall|k: int| 0 <= k < es.len() ==> item_error(#[trigger] es[k].item) is None,
    ensures
        entries_error(es) is None,
    decreases es.len(),
{
    if es.len() > 0 {
        let d = es.drop_first();
        assert forall|k: int| 0 <= k < d.len() implies item_error(#[trigger] d[k].item) is None by {
            assert(d[k] == es[k + 1]);
        }
        lemma_entries_error_none(d);
        assert(item_error(es[0].item) is None);
    }
}

/// Append entries to a playlist; every entry is checked first and the
/// first refusal wins.
pub fn add_items(file: &mut PlaylistFile, id: &str, entries: Vec<PlaylistEntry>, now_ms: u64) -> (r:
    Result<Playlist, String>)
    ensures
        follows(
            *old(file),
            *final(file),
            r,
            add_outcome(store_of(*old(file)), id@, entries_state(entries@), now_ms),
        ),
{
    let ghost es = entries_state(entries@);
    if entries.len() == 0 {
        return Err("choose at least one item".to_string());
    }
    let mut k: usize = 0;
    while k < entries.len()
        invariant
            k <= entries.len(),
            es == entries_state(entries@),
            forall|m: int| 0 <= m < k ==> item_error(#[trigger] es[m].item) is None,
        decreases entries.len() - k,
    {
        assert(es[k as int] == entries@[k as int]@);
        match validate_item(&entries[k].item) {
            Ok(()) => {},
            Err(e) => {
                proof {
                    lemma_entries_error_prefix(es, k as int);
                    assert(es.skip(k as int)[0] == es[k as int]);
                }
                return Err(e);
            },
        }
        k += 1;
    }
    proof {
        lemma_entries_error_none(es);
    }
    let ghost s = store_of(*file);
    let i = match position_of(&file.playlists, id) {
        Some(i) => i,
        None => return Err("playlist not found".to_string()),
    };
    assert(s[i as int] == file.playlists@[i as int]@);
    let mut p = file.playlists[i].duplicate();
    let ghost before = p.items@;
    let ghost p0 = p;
    let mut j: usize = 0;
    while j < entries.len()
        invariant
            j <= entries.len(),
            p.id == p0.id,
            p.name == p0.name,
            p.created_ms == p0.created_ms,
            p.updated_ms == p0.updated_ms,
            es == entries_state(entries@),
            entries_state(p.items@) == entries_state(before) + es.take(j as int),
        decreases entries.len() - j,
    {
        let ghost b2 = p.items@;
        p.items.push(entries[j].duplicate());
        assert(entries_state(p.items@) =~= entries_state(b2).push(es[j as int]));
        assert(es.take(j + 1) =~= es.take(j as int).push(es[j as int]));
        j += 1;
    }
    assert(es.take(j as int) =~= es);
    p.updated_ms = now_ms;
    let out = p.duplicate();
    put_playlist(&mut file.playlists, i, p);
    Ok(out)
}

/// Remove an entry (every entry with this id) from a playlist.
pub fn remove_item(file: &mut PlaylistFile, id: &str, entry_id: &str, now_ms: u64) -> (r: Result<
    Playlist,
    String,
>)
    ensures
        follows(
            *old(file),
            *final(file),
            r,
            remove_outcome(store_of(*old(file)), id@, entry_id@, now_ms),
        ),
{
    let ghost s = store_of(*file);
    let i = match position_of(&file.playlists, id) {
        Some(i) => i,
        None => return Err("playlist not found".to_string()),
    };
    assert(s[i as int] == file.playlists@[i as int]@);
    match entry_position(&file.playlists[i].items, entry_id) {
        None => return Err("playlist item not found".to_string()),
        Some(k0) => {
            assert(s[i as int].items[k0 as int].id == entry_id@);
        },
    }
    let mut p = file.playlists[i].duplicate();
    let ghost items = entries_state(p.items@);
    let ghost pk = |e: EntryState| e.id != entry_id@;
    let mut kept: Vec<PlaylistEntry> = Vec::new();
    let mut j: usize = 0;
    while j < p.items.len()
        invariant
            j <= p.items.len(),
            items == entries_state(p.items@),
            pk == (|e: EntryState| e.id != entry_id@),
            entries_state(kept@) == items.take(j as int).filter(pk),
        decreases p.items.len() - j,
    {
        proof {
            lemma_filter_take_step(items, pk, j as int);
        }
        assert(items[j as int] == p.items@[j as int]@);
        if !str_eq(p.items[j].id.as_str(), entry_id) {
            let ghost b2 = kept@;
            kept.push(p.items[j].duplicate());
            assert(entries_state(kept@) =~= entries_state(b2).push(items[j as int]));
        }
        j += 1;
    }
    assert(items.take(j as int) =~= items);
    p.items = kept;
    p.updated_ms = now_ms;
    let out = p.duplicate();
    put_playlist(&mut file.playlists, i, p);
    Ok(out)
}

/// Move one entry to `to_index`; positions past the end are refused.
pub fn reorder(file: &mut PlaylistFile, id: &str, entry_id: &str, to_index: usize, now_ms: u64) -> (r:
    Result<Playlist, String>)
    ensures
        follows(
            *old(file),
            *final(file),
            r,
            reorder_outcome(store_of(*old(file)), id@, entry_id@, to_index as int, now_ms),
        ),
{
    let ghost s = store_of(*file);
    let i = match position_of(&file.playlists, id) {
        Some(i) => i,
        None => return Err("playlist not found".to_string()),
    };
    assert(s[i as int] == file.playlists@[i as int]@);
    let from = match entry_position(&file.playlists[i].items, entry_id) {
        Some(f) => f,
        None => return Err("playlist item not found".to_string()),
    };
    if to_index >= file.playlists[i].items.len() {
        return Err("playlist position is out of range".to_string());
    }
    if from == to_index {
        return Ok(file.playlists[i].duplicate());
    }
    let mut p = file.playlists[i].duplicate();
    let ghost items = entries_state(p.items@);
    let e = p.items.remove(from);
    let ghost ev = e@;
    assert(ev == items[from as int]);
    p.items.insert(to_index, e);
    assert(entries_state(p.items@) =~= moved(items, from as int, to_index as int));
    p.updated_ms = now_ms;
    let out = p.duplicate();
    put_playlist(&mut file.playlists, i, p);
    Ok(out)
}

/// Whether an item can be routed now: its key names its own source, the
/// raw part is not empty, and that source is live.
pub open spec fn routable(item: ItemView, live: Seq<Seq<char>>) -> bool {
    match split_once(item.rating_key, ':') {
        Some((src, raw)) => raw.len() > 0 && src == item.source_id && live.contains(src),
        None => false,
    }
}

fn is_live(live: &Vec<String>, source: &str) -> (r: bool)
    ensures
        r == crate::text::strings_view(live@).contains(source@),
{
    let ghost lv = crate::text::strings_view(live@);
    let mut i: usize = 0;
    while i < live.len()
        invariant
            i <= live.len(),
            lv == crate::text::strings_view(live@),
            forall|k: int| 0 <= k < i ==> lv[k] != source@,
        decreases live.len() - i,
    {
        assert(lv[i as int] == live@[i as int]@);
        if str_eq(live[i].as_str(), source) {
            return true;
        }
        i += 1;
    }
    false
}

/// The page view of a playlist: every entry kept in place and marked with
/// whether its source is live.
pub fn view(playlist: Playlist, live_sources: &Vec<String>) -> (r: PlaylistView)
    ensures
        r.id == playlist.id,
        r.name == playlist.name,
        r.created_ms == playlist.created_ms,
        r.updated_ms == playlist.updated_ms,
        r.items.len() == playlist.items.len(),
        forall|i: int|
            0 <= i < r.items.len() ==> {
                let e = #[trigger] playlist.items@[i]@;
                &&& r.items@[i].id@ == e.id
                &&& r.items@[i].item@ == e.item
                &&& opt_view(r.items@[i].source_name) == e.source_name
                &&& r.items@[i].available == routable(
                    e.item,
                    crate::text::strings_view(live_sources@),
                )
            },
{
    let ghost es = playlist.items@;
    let mut out: Vec<PlaylistEntryView> = Vec::new();
    let mut i: usize = 0;
    while i < playlist.items.len()
        invariant
            i <= playlist.items.len(),
            es == playlist.items@,
            out.len() == i,
            forall|k: int|
                0 <= k < i ==> {
                    let e = #[trigger] es[k]@;
                    &&& out@[k].id@ == e.id
                    &&& out@[k].item@ == e.item
                    &&& opt_view(out@[k].source_name) == e.source_name
                    &&& out@[k].available == routable(
                        e.item,
                        crate::text::strings_view(live_sources@),
                    )
                },
        decreases playlist.items.len() - i,
    {
        let entry = &playlist.items[i];
        let available = match split_once_str(entry.item.rating_key.as_str(), ':') {
            Some((source, raw)) => !raw.as_str().is_empty() && str_eq(
                source.as_str(),
                entry.item.source_id.as_str(),
            ) && is_live(live_sources, source.as_str()),
            None => false,
        };
        out.push(
            PlaylistEntryView {
                id: entry.id.clone(),
                item: entry.item.duplicate(),
                source_name: copy_opt(&entry.source_name),
                available,
            },
        );
        i += 1;
    }
    PlaylistView {
        id: playlist.id,
        name: playlist.name,
        items: out,
        created_ms: playlist.created_ms,
        updated_ms: playlist.updated_ms,
    }
}

/// Re-key every persisted routing identity from one source id to another
/// (entries and their order are kept).
pub fn rekey_source_id_in(file: &mut PlaylistFile, old_source_id: &str, new_source_id: &str)
    ensures
        final(file).schema_version == old(file).schema_version,
        final(file).playlists.len() == old(file).playlists.len(),
        forall|i: int|
            0 <= i < final(file).playlists.len() ==> {
                let before = #[trigger] old(file).playlists@[i];
                let after = final(file).playlists@[i];
                &&& after.id == before.id
                &&& after.name == before.name
                &&& after.created_ms == before.created_ms
                &&& after.updated_ms == before.updated_ms
                &&& after.items.len() == before.items.len()
                &&& forall|k: int|
                    0 <= k < after.items.len() ==> {
                        &&& (#[trigger] after.items@[k]).id == before.items@[k].id
                        &&& after.items@[k].source_name == before.items@[k].source_name
                        &&& item_rekeyed(
                            before.items@[k].item,
                            after.items@[k].item,
                            old_source_id@,
                            new_source_id@,
                        )
                    }
            },
{
    let ghost ps = file.playlists@;
    let mut rest: Vec<Playlist> = Vec::new();
    std::mem::swap(&mut rest, &mut file.playlists);
    let mut out: Vec<Playlist> = Vec::new();
    let ghost mut j: int = 0;
    while rest.len() > 0
        invariant
            0 <= j <= ps.len(),
            rest.len() == ps.len() - j,
            rest@ == ps.skip(j),
            out.len() == j,
            file.schema_version == old(file).schema_version,
            forall|i: int|
                0 <= i < j ==> {
                    let before = #[trigger] ps[i];
                    let after = out@[i];
                    &&& after.id == before.id
                    &&& after.name == before.name
                    &&& after.created_ms == before.created_ms
                    &&& after.updated_ms == before.updated_ms
                    &&& after.items.len() == before.items.len()
                    &&& forall|k: int|
                        0 <= k < after.items.len() ==> {
                            &&& (#[trigger] after.items@[k]).id == before.items@[k].id
                            &&& after.items@[k].source_name == before.items@[k].source_name
                            &&& item_rekeyed(
                                before.items@[k].item,
                                after.items@[k].item,
                                old_source_id@,
                                new_source_id@,
                            )
                        }
                },
        decreases rest.len(),
    {
        let ghost raw = rest@;
        let mut p = rest.remove(0);
        assert(rest@ =~= ps.skip(j + 1));
        assert(p == ps[j]);
        let ghost pitems = p.items@;
        let mut items: Vec<PlaylistEntry> = Vec::new();
        std::mem::swap(&mut items, &mut p.items);
        let mut done: Vec<PlaylistEntry> = Vec::new();
        let ghost mut m: int = 0;
        while items.len() > 0
            invariant
                0 <= m <= pitems.len(),
                items.len() == pitems.len() - m,
                items@ == pitems.skip(m),
                done.len() == m,
                forall|k: int|
                    0 <= k < m ==> {
                        &&& (#[trigger] done@[k]).id == pitems[k].id
                        &&& done@[k].source_name == pitems[k].source_name
                        &&& item_rekeyed(
                            pitems[k].item,
                            done@[k].item,
                            old_source_id@,
                            new_source_id@,
                        )
                    },
            decreases items.len(),
        {
            let mut e = items.remove(0);
            assert(items@ =~= pitems.skip(m + 1));
            assert(e == pitems[m]);
            rekey_item_source(&mut e.item, old_source_id, new_source_id);
            done.push(e);
            proof {
                m = m + 1;
            }
        }
        p.items = done;
        out.push(p);
        proof {
            j = j + 1;
        }
    }
    file.playlists = out;
}

// ---- laws ---------------------------------------------------------------------

/// Moving an entry keeps exactly the same entries, and puts it where asked.
pub proof fn law_reorder_is_permutation(items: Seq<EntryState>, from: int, to: int)
    requires
        0 <= from < items.len(),
        0 <= to < items.len(),
    ensures
        moved(items, from, to).to_multiset() == items.to_multiset(),
        moved(items, from, to).len() == items.len(),
        moved(items, from, to)[to] == items[from],
{
    broadcast use vstd::seq_lib::to_multiset_remove, vstd::seq_lib::to_multiset_insert;
    broadcast use vstd::multiset::group_multiset_axioms;

    let r = items.remove(from);
    assert(r.insert(to, items[from]).to_multiset() =~= r.to_multiset().insert(items[from]));
    assert(r.to_multiset() =~= items.to_multiset().remove(items[from]));
    items.to_multiset_ensures();
    assert(items.contains(items[from]));
}

/// Moving an entry away and back restores the playlist.
pub proof fn law_reorder_round_trip(items: Seq<EntryState>, from: int, to: int)
    requires
        0 <= from < items.len(),
        0 <= to < items.len(),
    ensures
        moved(moved(items, from, to), to, from) == items,
{
    let m = moved(items, from, to);
    assert(m[to] == items[from]);
    assert(m.remove(to) =~= items.remove(from));
    assert(items.remove(from).insert(from, items[from]) =~= items);
}

/// Moving an entry slides the entries between its old and new slot one
/// step toward the old slot, in order, and leaves every other entry where
/// it was.
pub proof fn law_reorder_shifts_between(items: Seq<EntryState>, from: int, to: int)
    requires
        0 <= from < items.len(),
        0 <= to < items.len(),
    ensures
        moved(items, from, to).len() == items.len(),
        moved(items, from, to)[to] == items[from],
        from < to ==> forall|k: int| from <= k < to ==> #[trigger] moved(items, from, to)[k] == items[k + 1],
        to < from ==> forall|k: int| to < k <= from ==> #[trigger] moved(items, from, to)[k] == items[k - 1],
        forall|k: int|
            0 <= k < items.len() && (k < from && k < to || k > from && k > to) ==> #[trigger] moved(
                items,
                from,
                to,
            )[k] == items[k],
{
    let m = moved(items, from, to);
    let r = items.remove(from);
    assert(m.len() == items.len());
    assert forall|k: int| 0 <= k < items.len() && k != to implies #[trigger] m[k] == if k < to {
        r[k]
    } else {
        r[k - 1]
    } by {}
    assert forall|k: int| 0 <= k < r.len() implies #[trigger] r[k] == if k < from {
        items[k]
    } else {
        items[k + 1]
    } by {}
}

} // verus!
