//! Vela's own "recently played" record, feeding the Continue Watching hero.
//! Recently played and not finished is Continue Watching, whatever the source;
//! explicit removals leave tombstones that a server hub cannot undo, and
//! playing an item again clears them.

use vstd::prelude::*;
use crate::config::{same_settings, AppConfig};
use crate::seqs::{
    first_match, keep_first, keep_last, lemma_filter_all, lemma_filter_filter, lemma_filter_none,
    lemma_filter_single_drop, lemma_filter_take_step, lemma_first_match_found,
    lemma_first_match_none, lemma_first_match_props,
};
use crate::source::{ItemDto, ItemView};
use crate::text::{opt_view, str_eq, strings_view};

verus! {

broadcast use vstd::string::group_string_axioms;

/// Enough history to fan a cover-flow, small enough for the config file.
pub const MAX_RECENTS: usize = 20;

/// Percent of duration past which a play counts as finished.
pub const DEFAULT_WATCHED_THRESHOLD: u8 = 95;

/// Bound on the Continue Watching tombstone list (oldest dropped first).
pub const MAX_HIDDEN: usize = 200;

/// One recorded play.
#[derive(Debug, Clone)]
pub struct RecentEntry {
    /// Snapshot of the item as played.
    pub item: ItemDto,
    /// Unique playback incarnation; absent on older entries.
    pub session_id: Option<String>,
    /// Unix ms when this playback started (0 when unknown).
    pub started_at_ms: u64,
    /// Unix ms when the play session ended; 0 while it is still playing.
    pub ended_at_ms: u64,
}

/// The abstract content of a [`RecentEntry`].
pub struct RecentView {
    pub item: ItemView,
    pub session_id: Option<Seq<char>>,
    pub started_at_ms: u64,
    pub ended_at_ms: u64,
}

impl View for RecentEntry {
    type V = RecentView;

    open spec fn view(&self) -> RecentView {
        RecentView {
            item: self.item@,
            session_id: opt_view(self.session_id),
            started_at_ms: self.started_at_ms,
            ended_at_ms: self.ended_at_ms,
        }
    }
}

impl RecentEntry {
    pub fn duplicate(&self) -> (r: Self)
        ensures
            r@ == self@,
    {
        RecentEntry {
            item: self.item.duplicate(),
            session_id: crate::source::copy_opt(&self.session_id),
            started_at_ms: self.started_at_ms,
            ended_at_ms: self.ended_at_ms,
        }
    }
}

// ---- the abstract state and its rules ---------------------------------------

pub open spec fn entries_view(s: Seq<RecentEntry>) -> Seq<RecentView> {
    s.map_values(|e: RecentEntry| e@)
}

/// The recents list of a settings record.
pub open spec fn recents_of(cfg: AppConfig) -> Seq<RecentView> {
    entries_view(cfg.recents@)
}

/// The tombstone list of a settings record.
pub open spec fn hidden_of(cfg: AppConfig) -> Seq<Seq<char>> {
    strings_view(cfg.hidden_from_continue@)
}

/// The threshold in effect.
pub open spec fn threshold_of(cfg: AppConfig) -> u64 {
    match cfg.watched_threshold_percent {
        Some(t) => t as u64,
        None => DEFAULT_WATCHED_THRESHOLD as u64,
    }
}

/// `key` names this entry, by its play identity or its watch identity.
pub open spec fn matches_key(e: RecentView, key: Seq<char>) -> bool {
    e.item.rating_key == key || e.item.watch_key == Some(key)
}

/// `key` names this entry through the play key or the optional watch key.
pub open spec fn matches_completion(e: RecentView, play: Seq<char>, watch: Option<Seq<char>>) -> bool {
    matches_key(e, play) || (watch matches Some(w) && matches_key(e, w))
}

/// `u64::saturating_mul`.
pub open spec fn sat_mul(a: u64, b: u64) -> u64 {
    if a * b > u64::MAX {
        u64::MAX
    } else {
        (a * b) as u64
    }
}

/// A play at `position` of an item of this duration counts as watched.
pub open spec fn is_finished(duration: Option<u64>, position: u64, threshold: u64) -> bool {
    match duration {
        Some(d) => d > 0 && sat_mul(position, 100) >= sat_mul(d, threshold),
        None => false,
    }
}

/// Tombstones after adding `keys` one by one, skipping ones already held.
pub open spec fn tomb_add(h: Seq<Seq<char>>, keys: Seq<Seq<char>>) -> Seq<Seq<char>>
    decreases keys.len(),
{
    if keys.len() == 0 {
        h
    } else {
        let prev = tomb_add(h, keys.drop_last());
        if prev.contains(keys.last()) {
            prev
        } else {
            prev.push(keys.last())
        }
    }
}

/// Tombstones after adding `keys`, capped FIFO at [`MAX_HIDDEN`].
pub open spec fn tombstoned(h: Seq<Seq<char>>, keys: Seq<Seq<char>>) -> Seq<Seq<char>> {
    keep_last(tomb_add(h, keys), MAX_HIDDEN as nat)
}

/// Tombstones with every occurrence of each of `keys` removed, in order.
pub open spec fn remove_all(h: Seq<Seq<char>>, keys: Seq<Seq<char>>) -> Seq<Seq<char>>
    decreases keys.len(),
{
    if keys.len() == 0 {
        h
    } else {
        remove_all(h, keys.drop_last()).filter(|k: Seq<char>| k != keys.last())
    }
}

/// The entry a new play records.
pub open spec fn fresh_entry(item: ItemView, session: Option<Seq<char>>, started: u64) -> RecentView {
    RecentView { item, session_id: session, started_at_ms: started, ended_at_ms: 0 }
}

/// Recents after recording a play of `item`: newest first, one entry per
/// play key, capped at [`MAX_RECENTS`].
pub open spec fn recorded(s: Seq<RecentView>, e: RecentView) -> Seq<RecentView> {
    keep_first(
        seq![e] + s.filter(|r: RecentView| r.item.rating_key != e.item.rating_key),
        MAX_RECENTS as nat,
    )
}

/// Tombstones after a play of `item`: both of its identities cleared.
pub open spec fn untombstoned_for(h: Seq<Seq<char>>, item: ItemView) -> Seq<Seq<char>> {
    h.filter(|k: Seq<char>| k != item.rating_key && item.watch_key != Some(k))
}

/// Position of the entry of exactly this play incarnation.
pub open spec fn session_pos(s: Seq<RecentView>, key: Seq<char>, session: Seq<char>) -> Option<int> {
    first_match(
        s,
        |e: RecentView| e.item.rating_key == key && e.session_id == Some(session),
    )
}

/// An entry with its final position stamped.
pub open spec fn stamped(e: RecentView, position: u64, ended: u64) -> RecentView {
    RecentView {
        item: ItemView {
            view_offset_ms: if position > 0 {
                Some(position)
            } else {
                e.item.view_offset_ms
            },
            ..e.item
        },
        ended_at_ms: ended,
        ..e
    }
}

/// Recents after a session's tracker reports its final position.
pub open spec fn session_finished(
    s: Seq<RecentView>,
    key: Seq<char>,
    session: Seq<char>,
    position: u64,
    now: u64,
    threshold: u64,
) -> Seq<RecentView> {
    match session_pos(s, key, session) {
        None => s,
        Some(p) => if is_finished(s[p].item.duration_ms, position, threshold) {
            s.remove(p)
        } else {
            s.update(
                p,
                stamped(
                    s[p],
                    position,
                    if p == 0 {
                        now
                    } else {
                        s[p].ended_at_ms
                    },
                ),
            )
        },
    }
}

/// Position of the exact completed incarnation.
pub open spec fn exact_pos(
    s: Seq<RecentView>,
    play: Seq<char>,
    watch: Option<Seq<char>>,
    session: Seq<char>,
) -> Option<int> {
    first_match(
        s,
        |e: RecentView| matches_completion(e, play, watch) && e.session_id == Some(session),
    )
}

/// The start stamp of the completed incarnation.
pub open spec fn completed_start(
    s: Seq<RecentView>,
    play: Seq<char>,
    watch: Option<Seq<char>>,
    session: Seq<char>,
    started: u64,
) -> u64 {
    match exact_pos(s, play, watch, session) {
        Some(p) => if s[p].started_at_ms > 0 {
            s[p].started_at_ms
        } else {
            started
        },
        None => started,
    }
}

/// The entry at `i` is a different, newer incarnation of the same identity.
pub open spec fn newer_at(
    s: Seq<RecentView>,
    i: int,
    play: Seq<char>,
    watch: Option<Seq<char>>,
    session: Seq<char>,
    started: u64,
) -> bool {
    let cs = completed_start(s, play, watch, session, started);
    &&& matches_completion(s[i], play, watch)
    &&& s[i].session_id != Some(session)
    &&& (cs == 0 || s[i].started_at_ms > cs || (s[i].started_at_ms == cs && match exact_pos(
        s,
        play,
        watch,
        session,
    ) {
        Some(x) => i < x,
        None => true,
    }))
}

pub open spec fn has_newer(
    s: Seq<RecentView>,
    play: Seq<char>,
    watch: Option<Seq<char>>,
    session: Seq<char>,
    started: u64,
) -> bool {
    exists|i: int| 0 <= i < s.len() && newer_at(s, i, play, watch, session, started)
}

/// The identities of one entry.
pub open spec fn entry_keys(e: RecentView) -> Seq<Seq<char>> {
    match e.item.watch_key {
        Some(w) => seq![e.item.rating_key, w],
        None => seq![e.item.rating_key],
    }
}

pub open spec fn opt_keys(k: Option<Seq<char>>) -> Seq<Seq<char>> {
    match k {
        Some(w) => seq![w],
        None => Seq::empty(),
    }
}

/// Identities of every entry a completion curates, in list order.
pub open spec fn matched_keys(s: Seq<RecentView>, play: Seq<char>, watch: Option<Seq<char>>) -> Seq<
    Seq<char>,
>
    decreases s.len(),
{
    if s.len() == 0 {
        Seq::empty()
    } else {
        matched_keys(s.drop_last(), play, watch) + if matches_completion(s.last(), play, watch) {
            entry_keys(s.last())
        } else {
            Seq::empty()
        }
    }
}

/// Every key a clean completion tombstones.
pub open spec fn completion_keys(s: Seq<RecentView>, play: Seq<char>, watch: Option<Seq<char>>) -> Seq<
    Seq<char>,
> {
    seq![play] + opt_keys(watch) + matched_keys(s, play, watch)
}

/// Position of the first entry named by `key`.
pub open spec fn match_pos(s: Seq<RecentView>, key: Seq<char>) -> Option<int> {
    first_match(s, |e: RecentView| matches_key(e, key))
}

/// Keys [`hide_from_continue`] tombstones.
pub open spec fn hide_keys(s: Seq<RecentView>, key: Seq<char>) -> Seq<Seq<char>> {
    match match_pos(s, key) {
        Some(i) => seq![key] + entry_keys(s[i]),
        None => seq![key],
    }
}

/// The key server-side removal should target after [`hide_from_continue`].
pub open spec fn hide_server_key(s: Seq<RecentView>, key: Seq<char>) -> Seq<char> {
    match match_pos(s, key) {
        Some(i) => match s[i].item.watch_key {
            Some(w) => w,
            None => key,
        },
        None => key,
    }
}

/// Recents without any entry named by `key`.
pub open spec fn unrecorded(s: Seq<RecentView>, key: Seq<char>) -> Seq<RecentView> {
    s.filter(|e: RecentView| !matches_key(e, key))
}

proof fn lemma_entries_push(s: Seq<RecentEntry>, e: RecentEntry)
    ensures
        entries_view(s.push(e)) == entries_view(s).push(e@),
{
    assert(entries_view(s.push(e)) =~= entries_view(s).push(e@));
}

proof fn lemma_entries_remove_first(s: Seq<RecentEntry>)
    requires
        s.len() > 0,
    ensures
        entries_view(s.remove(0)) == entries_view(s).skip(1),
        entries_view(s)[0] == s[0]@,
{
    assert(entries_view(s.remove(0)) =~= entries_view(s).skip(1));
}

// ---- executable rules ---------------------------------------------------------

fn entry_matches(entry: &RecentEntry, key: &str) -> (r: bool)
    ensures
        r == matches_key(entry@, key@),
{
    if str_eq(entry.item.rating_key.as_str(), key) {
        return true;
    }
    match &entry.item.watch_key {
        Some(w) => str_eq(w.as_str(), key),
        None => false,
    }
}

pub open spec fn opt_str_view(o: Option<&str>) -> Option<Seq<char>> {
    match o {
        Some(s) => Some(s@),
        None => None,
    }
}

fn entry_matches_completion(entry: &RecentEntry, play_key: &str, watch_key: Option<&str>) -> (r:
    bool)
    ensures
        r == matches_completion(entry@, play_key@, opt_str_view(watch_key)),
{
    if entry_matches(entry, play_key) {
        return true;
    }
    match watch_key {
        Some(k) => entry_matches(entry, k),
        None => false,
    }
}

fn contains_string(v: &Vec<String>, k: &String) -> (r: bool)
    ensures
        r == strings_view(v@).contains(k@),
{
    let mut i: usize = 0;
    while i < v.len()
        invariant
            i <= v.len(),
            forall|j: int| 0 <= j < i ==> v@[j]@ != k@,
        decreases v.len() - i,
    {
        if str_eq(v[i].as_str(), k.as_str()) {
            assert(strings_view(v@)[i as int] == k@);
            return true;
        }
        i += 1;
    }
    assert forall|j: int| 0 <= j < strings_view(v@).len() implies strings_view(v@)[j] != k@ by {
        assert(strings_view(v@)[j] == v@[j]@);
    }
    false
}

/// The strings of `v` from position `n` on.
fn skip_strings(v: &Vec<String>, n: usize) -> (r: Vec<String>)
    requires
        n <= v.len(),
    ensures
        strings_view(r@) == strings_view(v@).skip(n as int),
{
    let mut r: Vec<String> = Vec::new();
    let mut i: usize = n;
    while i < v.len()
        invariant
            n <= i <= v.len(),
            r.len() == i - n,
            forall|j: int| 0 <= j < r.len() ==> #[trigger] r@[j]@ == v@[j + n]@,
        decreases v.len() - i,
    {
        r.push(v[i].clone());
        i += 1;
    }
    assert(strings_view(r@) =~= strings_view(v@).skip(n as int));
    r
}

fn add_tombstones(cfg: &mut AppConfig, keys: Vec<String>)
    ensures
        hidden_of(*final(cfg)) == tombstoned(hidden_of(*old(cfg)), strings_view(keys@)),
        final(cfg).recents == old(cfg).recents,
        same_settings(*final(cfg), *old(cfg)),
{
    let ghost h0 = hidden_of(*cfg);
    let ghost kv = strings_view(keys@);
    let mut j: usize = 0;
    while j < keys.len()
        invariant
            j <= keys.len(),
            kv == strings_view(keys@),
            hidden_of(*cfg) == tomb_add(h0, kv.take(j as int)),
            cfg.recents == old(cfg).recents,
            same_settings(*cfg, *old(cfg)),
        decreases keys.len() - j,
    {
        proof {
            assert(kv.take(j + 1).drop_last() =~= kv.take(j as int));
            assert(kv.take(j + 1).last() == keys@[j as int]@);
        }
        if !contains_string(&cfg.hidden_from_continue, &keys[j]) {
            cfg.hidden_from_continue.push(keys[j].clone());
            assert(hidden_of(*cfg) =~= tomb_add(h0, kv.take(j as int)).push(keys@[j as int]@));
        }
        j += 1;
    }
    assert(kv.take(keys.len() as int) =~= kv);
    if cfg.hidden_from_continue.len() > MAX_HIDDEN {
        let excess = cfg.hidden_from_continue.len() - MAX_HIDDEN;
        let kept = skip_strings(&cfg.hidden_from_continue, excess);
        cfg.hidden_from_continue = kept;
    }
}

/// Recents entries not named by `key`, in order.
fn retain_unmatched(v: Vec<RecentEntry>, key: &str) -> (r: Vec<RecentEntry>)
    ensures
        entries_view(r@) == unrecorded(entries_view(v@), key@),
{
    let ghost orig = entries_view(v@);
    let ghost p = |e: RecentView| !matches_key(e, key@);
    let mut rest = v;
    let mut out: Vec<RecentEntry> = Vec::new();
    let ghost mut i: int = 0;
    while rest.len() > 0
        invariant
            0 <= i <= orig.len(),
            rest.len() == orig.len() - i,
            entries_view(rest@) == orig.skip(i),
            entries_view(out@) == orig.take(i).filter(p),
            p == (|e: RecentView| !matches_key(e, key@)),
        decreases rest.len(),
    {
        let ghost raw = rest@;
        let e = rest.remove(0);
        proof {
            lemma_entries_remove_first(raw);
            assert(orig.skip(i)[0] == orig[i]);
            assert(orig[i] == e@);
            assert(orig.skip(i).skip(1) =~= orig.skip(i + 1));
            lemma_filter_take_step(orig, p, i);
        }
        if !entry_matches(&e, key) {
            let ghost before_out = out@;
            out.push(e);
            proof {
                lemma_entries_push(before_out, e);
            }
        }
        proof {
            i = i + 1;
        }
    }
    assert(orig.take(i) =~= orig);
    out
}

/// Record a play starting: newest first, one entry per item, capped.
pub fn record(cfg: &mut AppConfig, item: ItemDto)
    ensures
        recents_of(*final(cfg)) == recorded(recents_of(*old(cfg)), fresh_entry(item@, None, 0)),
        hidden_of(*final(cfg)) == untombstoned_for(hidden_of(*old(cfg)), item@),
        same_settings(*final(cfg), *old(cfg)),
{
    record_at(cfg, item, None, 0);
}

fn record_at(cfg: &mut AppConfig, item: ItemDto, session_id: Option<String>, started_at_ms: u64)
    ensures
        recents_of(*final(cfg)) == recorded(
            recents_of(*old(cfg)),
            fresh_entry(item@, opt_view(session_id), started_at_ms),
        ),
        hidden_of(*final(cfg)) == untombstoned_for(hidden_of(*old(cfg)), item@),
        same_settings(*final(cfg), *old(cfg)),
{
    // Tombstones of both identities are cleared: playing again is the
    // explicit opposite of "stop suggesting it".
    let ghost h0 = hidden_of(*cfg);
    let ghost ph = |k: Seq<char>| k != item@.rating_key && item@.watch_key != Some(k);
    let mut kept: Vec<String> = Vec::new();
    let mut i: usize = 0;
    while i < cfg.hidden_from_continue.len()
        invariant
            i <= cfg.hidden_from_continue.len(),
            h0 == hidden_of(*cfg),
            ph == (|k: Seq<char>| k != item@.rating_key && item@.watch_key != Some(k)),
            strings_view(kept@) == h0.take(i as int).filter(ph),
        decreases cfg.hidden_from_continue.len() - i,
    {
        proof {
            lemma_filter_take_step(h0, ph, i as int);
        }
        let k = &cfg.hidden_from_continue[i];
        let drop = str_eq(k.as_str(), item.rating_key.as_str()) || match &item.watch_key {
            Some(w) => str_eq(w.as_str(), k.as_str()),
            None => false,
        };
        if !drop {
            kept.push(k.clone());
            assert(strings_view(kept@) =~= h0.take(i as int).filter(ph).push(h0[i as int]));
        }
        i += 1;
    }
    assert(h0.take(i as int) =~= h0);
    cfg.hidden_from_continue = kept;

    let ghost s0 = recents_of(*cfg);
    let ghost pr = |r: RecentView| r.item.rating_key != item@.rating_key;
    let mut rest: Vec<RecentEntry> = Vec::new();
    std::mem::swap(&mut rest, &mut cfg.recents);
    let mut out: Vec<RecentEntry> = Vec::new();
    let entry = RecentEntry { item, session_id, started_at_ms, ended_at_ms: 0 };
    let ghost ev = entry@;
    out.push(entry);
    let ghost mut j: int = 0;
    while rest.len() > 0
        invariant
            0 <= j <= s0.len(),
            rest.len() == s0.len() - j,
            entries_view(rest@) == s0.skip(j),
            entries_view(out@) == seq![ev] + s0.take(j).filter(pr),
            pr == (|r: RecentView| r.item.rating_key != ev.item.rating_key),
            out.len() > 0,
            out@[0]@ == ev,
        decreases rest.len(),
    {
        let ghost raw = rest@;
        let e = rest.remove(0);
        proof {
            lemma_entries_remove_first(raw);
            assert(s0.skip(j)[0] == s0[j]);
            assert(s0[j] == e@);
            assert(s0.skip(j).skip(1) =~= s0.skip(j + 1));
            lemma_filter_take_step(s0, pr, j);
        }
        if !str_eq(e.item.rating_key.as_str(), out[0].item.rating_key.as_str()) {
            let ghost before_out = out@;
            out.push(e);
            proof {
                lemma_entries_push(before_out, e);
                assert(entries_view(out@) =~= seq![ev] + s0.take(j).filter(pr).push(s0[j]));
            }
        }
        proof {
            j = j + 1;
        }
    }
    assert(s0.take(j) =~= s0);
    out.truncate(MAX_RECENTS);
    assert(entries_view(out@) =~= keep_first(seq![ev] + s0.filter(pr), MAX_RECENTS as nat));
    cfg.recents = out;
}

/// Record the snapshot for a successfully-started playback session. Starting
/// from the beginning records a zero resume point; a resume keeps the one the
/// card carried.
pub fn record_play_start(
    cfg: &mut AppConfig,
    item: ItemDto,
    start_from_beginning: bool,
    session_id: String,
    started_at_ms: u64,
)
    ensures
        recents_of(*final(cfg)) == recorded(
            recents_of(*old(cfg)),
            fresh_entry(
                if start_from_beginning {
                    ItemView { view_offset_ms: Some(0), ..item@ }
                } else {
                    item@
                },
                Some(session_id@),
                started_at_ms,
            ),
        ),
        hidden_of(*final(cfg)) == untombstoned_for(hidden_of(*old(cfg)), item@),
        same_settings(*final(cfg), *old(cfg)),
{
    let mut item = item;
    if start_from_beginning {
        item.view_offset_ms = Some(0);
    }
    record_at(cfg, item, Some(session_id), started_at_ms);
}

/// `u64::saturating_mul`.
pub fn saturating_mul(a: u64, b: u64) -> (r: u64)
    ensures
        r == sat_mul(a, b),
{
    match a.checked_mul(b) {
        Some(x) => x,
        None => u64::MAX,
    }
}

fn finished_now(duration: Option<u64>, position_ms: u64, threshold: u64) -> (r: bool)
    ensures
        r == is_finished(duration, position_ms, threshold),
{
    match duration {
        Some(d) => d > 0 && saturating_mul(position_ms, 100) >= saturating_mul(d, threshold),
        None => false,
    }
}

fn threshold(cfg: &AppConfig) -> (r: u64)
    ensures
        r == threshold_of(*cfg),
{
    match cfg.watched_threshold_percent {
        Some(t) => t as u64,
        None => DEFAULT_WATCHED_THRESHOLD as u64,
    }
}

/// Stamp only the exact playback incarnation that started an entry. A
/// replaced same-key tracker finds a different session and changes nothing;
/// an older different-key tracker updates its position in place but never
/// its recency once a newer play sits in front of it.
pub fn finish_session(
    cfg: &mut AppConfig,
    rating_key: &str,
    session_id: &str,
    position_ms: u64,
    now_ms: u64,
)
    ensures
        recents_of(*final(cfg)) == session_finished(
            recents_of(*old(cfg)),
            rating_key@,
            session_id@,
            position_ms,
            now_ms,
            threshold_of(*old(cfg)),
        ),
        hidden_of(*final(cfg)) == hidden_of(*old(cfg)),
        same_settings(*final(cfg), *old(cfg)),
{
    let ghost s = recents_of(*cfg);
    let ghost p = |e: RecentView| e.item.rating_key == rating_key@ && e.session_id == Some(
        session_id@,
    );
    let mut pos: usize = 0;
    let mut found = false;
    while pos < cfg.recents.len()
        invariant_except_break
            pos <= cfg.recents.len(),
            s == recents_of(*cfg),
            p == (|e: RecentView| e.item.rating_key == rating_key@ && e.session_id == Some(
                session_id@,
            )),
            forall|k: int| 0 <= k < pos ==> !p(#[trigger] s[k]),
            !found,
        ensures
            found ==> pos < cfg.recents.len() && p(s[pos as int]),
            !found ==> pos == cfg.recents.len(),
            forall|k: int| 0 <= k < pos ==> !p(#[trigger] s[k]),
            s == recents_of(*cfg),
        decreases cfg.recents.len() - pos,
    {
        let e = &cfg.recents[pos];
        let same_session = match &e.session_id {
            Some(sid) => str_eq(sid.as_str(), session_id),
            None => false,
        };
        if str_eq(e.item.rating_key.as_str(), rating_key) && same_session {
            assert(s[pos as int] == e@);
            found = true;
            break ;
        }
        assert(s[pos as int] == e@);
        pos += 1;
    }
    if !found {
        proof {
            lemma_first_match_none(s, p);
        }
        return ;
    }
    proof {
        lemma_first_match_found(s, p, pos as int);
    }
    let finished = finished_now(cfg.recents[pos].item.duration_ms, position_ms, threshold(cfg));
    if finished {
        cfg.recents.remove(pos);
        assert(recents_of(*cfg) =~= s.remove(pos as int));
        return ;
    }
    let mut entry = cfg.recents.remove(pos);
    if position_ms > 0 {
        entry.item.view_offset_ms = Some(position_ms);
    }
    if pos == 0 {
        entry.ended_at_ms = now_ms;
    }
    cfg.recents.insert(pos, entry);
    assert(recents_of(*cfg) =~= s.update(
        pos as int,
        stamped(
            s[pos as int],
            position_ms,
            if pos == 0 {
                now_ms
            } else {
                s[pos as int].ended_at_ms
            },
        ),
    ));
}

proof fn lemma_matched_keys_step(s: Seq<RecentView>, play: Seq<char>, watch: Option<Seq<char>>, j: int)
    requires
        0 <= j < s.len(),
    ensures
        matched_keys(s.take(j + 1), play, watch) == matched_keys(s.take(j), play, watch) + if matches_completion(s[j], play, watch) {
            entry_keys(s[j])
        } else {
            Seq::empty()
        },
{
    assert(s.take(j + 1).drop_last() =~= s.take(j));
    assert(s.take(j + 1).last() == s[j]);
}

/// Admit a clean end of playback for exactly the incarnation that produced
/// it. A different incarnation of the same identity that started later (or,
/// at an equal start, sits ahead of the completed one) wins: nothing changes
/// and the completion is refused. Otherwise every snapshot of the identity
/// leaves the list and all of their keys are tombstoned. Returns whether the
/// completion was admitted.
pub fn complete_clean_session(
    cfg: &mut AppConfig,
    play_key: &str,
    watch_key: Option<&str>,
    session_id: &str,
    started_at_ms: u64,
) -> (r: bool)
    ensures
        r == !has_newer(
            recents_of(*old(cfg)),
            play_key@,
            opt_str_view(watch_key),
            session_id@,
            started_at_ms,
        ),
        r ==> recents_of(*final(cfg)) == recents_of(*old(cfg)).filter(
            |e: RecentView| !matches_completion(e, play_key@, opt_str_view(watch_key)),
        ),
        r ==> hidden_of(*final(cfg)) == tombstoned(
            hidden_of(*old(cfg)),
            completion_keys(recents_of(*old(cfg)), play_key@, opt_str_view(watch_key)),
        ),
        !r ==> *final(cfg) == *old(cfg),
        same_settings(*final(cfg), *old(cfg)),
{
    let ghost s = recents_of(*cfg);
    let ghost w = opt_str_view(watch_key);
    let ghost pe = |e: RecentView| matches_completion(e, play_key@, w) && e.session_id == Some(
        session_id@,
    );
    let mut pos: usize = 0;
    let mut found = false;
    while pos < cfg.recents.len()
        invariant_except_break
            pos <= cfg.recents.len(),
            s == recents_of(*cfg),
            w == opt_str_view(watch_key),
            pe == (|e: RecentView| matches_completion(e, play_key@, w) && e.session_id == Some(
                session_id@,
            )),
            forall|k: int| 0 <= k < pos ==> !pe(#[trigger] s[k]),
            !found,
        ensures
            found ==> pos < cfg.recents.len() && pe(s[pos as int]),
            !found ==> pos == cfg.recents.len(),
            forall|k: int| 0 <= k < pos ==> !pe(#[trigger] s[k]),
            s == recents_of(*cfg),
        decreases cfg.recents.len() - pos,
    {
        let e = &cfg.recents[pos];
        let same_session = match &e.session_id {
            Some(sid) => str_eq(sid.as_str(), session_id),
            None => false,
        };
        assert(s[pos as int] == e@);
        if entry_matches_completion(e, play_key, watch_key) && same_session {
            found = true;
            break ;
        }
        pos += 1;
    }
    let exact: Option<usize> = if found {
        Some(pos)
    } else {
        None
    };
    proof {
        if found {
            lemma_first_match_found(s, pe, pos as int);
        } else {
            lemma_first_match_none(s, pe);
        }
    }
    let cs: u64 = match exact {
        Some(p) => if cfg.recents[p].started_at_ms > 0 {
            cfg.recents[p].started_at_ms
        } else {
            started_at_ms
        },
        None => started_at_ms,
    };
    assert(cs == completed_start(s, play_key@, w, session_id@, started_at_ms));
    let mut i: usize = 0;
    let mut newer = false;
    while i < cfg.recents.len()
        invariant_except_break
            i <= cfg.recents.len(),
            s == recents_of(*cfg),
            w == opt_str_view(watch_key),
            cs == completed_start(s, play_key@, w, session_id@, started_at_ms),
            exact_pos(s, play_key@, w, session_id@) == match exact {
                Some(x) => Some(x as int),
                None => None::<int>,
            },
            forall|k: int|
                0 <= k < i ==> !#[trigger] newer_at(s, k, play_key@, w, session_id@, started_at_ms),
            !newer,
        ensures
            newer ==> i < cfg.recents.len() && newer_at(
                s,
                i as int,
                play_key@,
                w,
                session_id@,
                started_at_ms,
            ),
            !newer ==> forall|k: int|
                0 <= k < s.len() ==> !#[trigger] newer_at(
                    s,
                    k,
                    play_key@,
                    w,
                    session_id@,
                    started_at_ms,
                ),
            s == recents_of(*cfg),
        decreases cfg.recents.len() - i,
    {
        let e = &cfg.recents[i];
        assert(s[i as int] == e@);
        let other_session = match &e.session_id {
            Some(sid) => !str_eq(sid.as_str(), session_id),
            None => true,
        };
        if entry_matches_completion(e, play_key, watch_key) && other_session {
            let later = cs == 0 || e.started_at_ms > cs || (e.started_at_ms == cs && match exact {
                Some(x) => i < x,
                None => true,
            });
            proof {
                if e@.session_id == Some(session_id@) {
                    assert(e.session_id matches Some(sid) && sid@ == session_id@);
                }
            }
            assert(later == newer_at(s, i as int, play_key@, w, session_id@, started_at_ms));
            if later {
                newer = true;
                break ;
            }
        } else {
            assert(!newer_at(s, i as int, play_key@, w, session_id@, started_at_ms));
        }
        i += 1;
    }
    if newer {
        return false;
    }
    let mut keys: Vec<String> = Vec::new();
    keys.push(play_key.to_string());
    match watch_key {
        Some(k) => keys.push(k.to_string()),
        None => {},
    }
    assert(strings_view(keys@) =~= seq![play_key@] + opt_keys(w) + matched_keys(s.take(0), play_key@, w));
    let ghost pm = |e: RecentView| !matches_completion(e, play_key@, w);
    let mut rest: Vec<RecentEntry> = Vec::new();
    std::mem::swap(&mut rest, &mut cfg.recents);
    let mut out: Vec<RecentEntry> = Vec::new();
    let ghost mut j: int = 0;
    while rest.len() > 0
        invariant
            0 <= j <= s.len(),
            rest.len() == s.len() - j,
            entries_view(rest@) == s.skip(j),
            entries_view(out@) == s.take(j).filter(pm),
            strings_view(keys@) == seq![play_key@] + opt_keys(w) + matched_keys(s.take(j), play_key@, w),
            w == opt_str_view(watch_key),
            pm == (|e: RecentView| !matches_completion(e, play_key@, w)),
        decreases rest.len(),
    {
        let ghost raw = rest@;
        let e = rest.remove(0);
        proof {
            lemma_entries_remove_first(raw);
            assert(s.skip(j)[0] == s[j]);
            assert(s.skip(j).skip(1) =~= s.skip(j + 1));
            lemma_filter_take_step(s, pm, j);
            lemma_matched_keys_step(s, play_key@, w, j);
        }
        let ghost k0 = strings_view(keys@);
        if entry_matches_completion(&e, play_key, watch_key) {
            keys.push(e.item.rating_key.clone());
            match &e.item.watch_key {
                Some(k) => keys.push(k.clone()),
                None => {},
            }
            assert(strings_view(keys@) =~= k0 + entry_keys(s[j]));
        } else {
            let ghost before_out = out@;
            out.push(e);
            proof {
                lemma_entries_push(before_out, e);
            }
            assert(strings_view(keys@) =~= k0 + Seq::<Seq<char>>::empty());
        }
        proof {
            j = j + 1;
        }
    }
    assert(s.take(j) =~= s);
    cfg.recents = out;
    add_tombstones(cfg, keys);
    true
}

pub open spec fn opt_int(o: Option<usize>) -> Option<int> {
    match o {
        Some(x) => Some(x as int),
        None => None,
    }
}

/// Position of the first entry named by `key`.
fn match_position(v: &Vec<RecentEntry>, key: &str) -> (r: Option<usize>)
    ensures
        opt_int(r) == match_pos(entries_view(v@), key@),
        r matches Some(i) ==> i < v.len(),
{
    let ghost s = entries_view(v@);
    let ghost p = |e: RecentView| matches_key(e, key@);
    let mut i: usize = 0;
    while i < v.len()
        invariant
            i <= v.len(),
            s == entries_view(v@),
            p == (|e: RecentView| matches_key(e, key@)),
            forall|k: int| 0 <= k < i ==> !p(#[trigger] s[k]),
        decreases v.len() - i,
    {
        assert(s[i as int] == v@[i as int]@);
        if entry_matches(&v[i], key) {
            proof {
                lemma_first_match_found(s, p, i as int);
            }
            return Some(i);
        }
        i += 1;
    }
    proof {
        lemma_first_match_none(s, p);
    }
    None
}

/// The resume point stamped for `key`.
pub open spec fn resume_stamp(s: Seq<RecentView>, key: Seq<char>) -> u64 {
    match match_pos(s, key) {
        Some(i) => match s[i].item.view_offset_ms {
            Some(v) => v,
            None => 0,
        },
        None => 0,
    }
}

/// Vela's own stamped resume position for a key, 0 when none; either
/// identity of a merged item finds it.
pub fn resume_stamp_ms(cfg: &AppConfig, key: &str) -> (r: u64)
    ensures
        r == resume_stamp(recents_of(*cfg), key@),
{
    match match_position(&cfg.recents, key) {
        Some(i) => match cfg.recents[i].item.view_offset_ms {
            Some(v) => v,
            None => 0,
        },
        None => 0,
    }
}

/// Drop an item from recents (mark-watched, explicit removal).
pub fn unrecord(cfg: &mut AppConfig, rating_key: &str)
    ensures
        recents_of(*final(cfg)) == unrecorded(recents_of(*old(cfg)), rating_key@),
        final(cfg).hidden_from_continue == old(cfg).hidden_from_continue,
        same_settings(*final(cfg), *old(cfg)),
{
    let mut rest: Vec<RecentEntry> = Vec::new();
    std::mem::swap(&mut rest, &mut cfg.recents);
    cfg.recents = retain_unmatched(rest, rating_key);
}

/// Explicitly remove an item from Continue Watching: drop its entries and
/// tombstone its full identity set. Returns the key server-side removal
/// should target: the entry's watch key when one exists, else `rating_key`.
pub fn hide_from_continue(cfg: &mut AppConfig, rating_key: &str) -> (r: String)
    ensures
        r@ == hide_server_key(recents_of(*old(cfg)), rating_key@),
        recents_of(*final(cfg)) == unrecorded(recents_of(*old(cfg)), rating_key@),
        hidden_of(*final(cfg)) == tombstoned(
            hidden_of(*old(cfg)),
            hide_keys(recents_of(*old(cfg)), rating_key@),
        ),
        same_settings(*final(cfg), *old(cfg)),
{
    let ghost s = recents_of(*cfg);
    let mut keys: Vec<String> = Vec::new();
    keys.push(rating_key.to_string());
    let mut server_key = rating_key.to_string();
    match match_position(&cfg.recents, rating_key) {
        Some(i) => {
            let e = &cfg.recents[i];
            assert(s[i as int] == e@);
            keys.push(e.item.rating_key.clone());
            match &e.item.watch_key {
                Some(wk) => {
                    server_key = wk.clone();
                    keys.push(wk.clone());
                },
                None => {},
            }
            assert(strings_view(keys@) =~= hide_keys(s, rating_key@));
        },
        None => {
            assert(strings_view(keys@) =~= hide_keys(s, rating_key@));
        },
    }
    unrecord(cfg, rating_key);
    add_tombstones(cfg, keys);
    server_key
}

/// Clear one tombstone without recording a play; exact-key match.
pub fn untombstone(cfg: &mut AppConfig, key: &str)
    ensures
        hidden_of(*final(cfg)) == hidden_of(*old(cfg)).filter(|k: Seq<char>| k != key@),
        final(cfg).recents == old(cfg).recents,
        same_settings(*final(cfg), *old(cfg)),
{
    let ghost h0 = hidden_of(*cfg);
    let ghost ph = |k: Seq<char>| k != key@;
    let mut kept: Vec<String> = Vec::new();
    let mut i: usize = 0;
    while i < cfg.hidden_from_continue.len()
        invariant
            i <= cfg.hidden_from_continue.len(),
            h0 == hidden_of(*cfg),
            ph == (|k: Seq<char>| k != key@),
            strings_view(kept@) == h0.take(i as int).filter(ph),
            cfg.recents == old(cfg).recents,
            same_settings(*cfg, *old(cfg)),
        decreases cfg.hidden_from_continue.len() - i,
    {
        proof {
            lemma_filter_take_step(h0, ph, i as int);
        }
        let k = &cfg.hidden_from_continue[i];
        if !str_eq(k.as_str(), key) {
            kept.push(k.clone());
            assert(strings_view(kept@) =~= h0.take(i as int).filter(ph).push(h0[i as int]));
        }
        i += 1;
    }
    assert(h0.take(i as int) =~= h0);
    cfg.hidden_from_continue = kept;
}

/// Undo token for a watched-state curation: enough to restore the state
/// before [`hide_from_continue`] when the server edit fails after local curation.
pub struct HideUndo {
    /// The dropped entry and its position, when one existed.
    entry: Option<(usize, RecentEntry)>,
    /// Exactly the tombstone keys the hide added (keys held before are not
    /// ours to remove on undo; keys the cap evicted are not restored).
    added_tombstones: Vec<String>,
}

/// The abstract content of a [`HideUndo`].
pub struct HideUndoView {
    pub entry: Option<(int, RecentView)>,
    pub added: Seq<Seq<char>>,
}

impl View for HideUndo {
    type V = HideUndoView;

    closed spec fn view(&self) -> HideUndoView {
        HideUndoView {
            entry: match self.entry {
                Some((i, e)) => Some((i as int, e@)),
                None => None,
            },
            added: strings_view(self.added_tombstones@),
        }
    }
}

/// The undo token [`hide_with_undo`] hands out.
pub open spec fn undo_of(s: Seq<RecentView>, h: Seq<Seq<char>>, key: Seq<char>) -> HideUndoView {
    HideUndoView {
        entry: match match_pos(s, key) {
            Some(i) => Some((i, s[i])),
            None => None,
        },
        added: tombstoned(h, hide_keys(s, key)).filter(|k: Seq<char>| !h.contains(k)),
    }
}

/// Recents after an undo: the entry goes back at its old position (or the
/// end) unless a newer play of the same key was recorded meanwhile.
pub open spec fn restored_recents(s: Seq<RecentView>, entry: Option<(int, RecentView)>) -> Seq<
    RecentView,
> {
    match entry {
        Some((i, e)) => if exists|k: int|
            0 <= k < s.len() && #[trigger] s[k].item.rating_key == e.item.rating_key {
            s
        } else {
            s.insert(
                if i < s.len() {
                    i
                } else {
                    s.len() as int
                },
                e,
            )
        },
        None => s,
    }
}

/// [`hide_from_continue`], also returning an undo token for [`restore_hidden`].
pub fn hide_with_undo(cfg: &mut AppConfig, key: &str) -> (r: HideUndo)
    ensures
        r@ == undo_of(recents_of(*old(cfg)), hidden_of(*old(cfg)), key@),
        recents_of(*final(cfg)) == unrecorded(recents_of(*old(cfg)), key@),
        hidden_of(*final(cfg)) == tombstoned(
            hidden_of(*old(cfg)),
            hide_keys(recents_of(*old(cfg)), key@),
        ),
        same_settings(*final(cfg), *old(cfg)),
{
    let ghost s = recents_of(*cfg);
    let ghost h = hidden_of(*cfg);
    let entry: Option<(usize, RecentEntry)> = match match_position(&cfg.recents, key) {
        Some(i) => {
            assert(s[i as int] == cfg.recents@[i as int]@);
            Some((i, cfg.recents[i].duplicate()))
        },
        None => None,
    };
    let pre = crate::source::copy_strings(&cfg.hidden_from_continue);
    hide_from_continue(cfg, key);
    let ghost h1 = hidden_of(*cfg);
    let ghost pf = |k: Seq<char>| !h.contains(k);
    let mut added: Vec<String> = Vec::new();
    let mut i: usize = 0;
    while i < cfg.hidden_from_continue.len()
        invariant
            i <= cfg.hidden_from_continue.len(),
            h1 == hidden_of(*cfg),
            strings_view(pre@) == h,
            pf == (|k: Seq<char>| !h.contains(k)),
            strings_view(added@) == h1.take(i as int).filter(pf),
        decreases cfg.hidden_from_continue.len() - i,
    {
        proof {
            lemma_filter_take_step(h1, pf, i as int);
        }
        let k = &cfg.hidden_from_continue[i];
        if !contains_string(&pre, k) {
            added.push(k.clone());
            assert(strings_view(added@) =~= h1.take(i as int).filter(pf).push(h1[i as int]));
        }
        i += 1;
    }
    assert(h1.take(i as int) =~= h1);
    HideUndo { entry, added_tombstones: added }
}

proof fn lemma_remove_all_step(h: Seq<Seq<char>>, keys: Seq<Seq<char>>, j: int)
    requires
        0 <= j < keys.len(),
    ensures
        remove_all(h, keys.take(j + 1)) == remove_all(h, keys.take(j)).filter(
            |k: Seq<char>| k != keys[j],
        ),
{
    assert(keys.take(j + 1).drop_last() =~= keys.take(j));
    assert(keys.take(j + 1).last() == keys[j]);
}

/// Roll a [`hide_with_undo`] back after a failed server edit. Newer play
/// activity wins: if the item was recorded again since, its fresh entry is
/// left as it is.
pub fn restore_hidden(cfg: &mut AppConfig, undo: HideUndo)
    ensures
        hidden_of(*final(cfg)) == remove_all(hidden_of(*old(cfg)), undo@.added),
        recents_of(*final(cfg)) == restored_recents(recents_of(*old(cfg)), undo@.entry),
        same_settings(*final(cfg), *old(cfg)),
{
    let ghost h0 = hidden_of(*cfg);
    let ghost added = strings_view(undo.added_tombstones@);
    let ghost uv = undo@;
    let HideUndo { entry, added_tombstones } = undo;
    let mut j: usize = 0;
    while j < added_tombstones.len()
        invariant
            j <= added_tombstones.len(),
            added == strings_view(added_tombstones@),
            hidden_of(*cfg) == remove_all(h0, added.take(j as int)),
            cfg.recents == old(cfg).recents,
            same_settings(*cfg, *old(cfg)),
        decreases added_tombstones.len() - j,
    {
        proof {
            lemma_remove_all_step(h0, added, j as int);
        }
        untombstone(cfg, added_tombstones[j].as_str());
        j += 1;
    }
    assert(added.take(j as int) =~= added);
    let ghost s = recents_of(*cfg);
    match entry {
        Some((idx, e)) => {
            let mut k: usize = 0;
            let mut present = false;
            while k < cfg.recents.len()
                invariant_except_break
                    k <= cfg.recents.len(),
                    s == recents_of(*cfg),
                    forall|m: int| 0 <= m < k ==> #[trigger] s[m].item.rating_key != e@.item.rating_key,
                    !present,
                ensures
                    present ==> k < s.len() && s[k as int].item.rating_key == e@.item.rating_key,
                    !present ==> forall|m: int|
                        0 <= m < s.len() ==> #[trigger] s[m].item.rating_key != e@.item.rating_key,
                    s == recents_of(*cfg),
                decreases cfg.recents.len() - k,
            {
                assert(s[k as int] == cfg.recents@[k as int]@);
                if str_eq(cfg.recents[k].item.rating_key.as_str(), e.item.rating_key.as_str()) {
                    present = true;
                    break ;
                }
                k += 1;
            }
            if !present {
                let at = if idx < cfg.recents.len() {
                    idx
                } else {
                    cfg.recents.len()
                };
                let ghost ev = e@;
                cfg.recents.insert(at, e);
                assert(recents_of(*cfg) =~= s.insert(at as int, ev));
            }
        },
        None => {},
    }
}

/// Recents after a play of `key` ended at `position`: a finished entry
/// leaves, any other is stamped and moved to the front.
pub open spec fn finished_list(
    s: Seq<RecentView>,
    key: Seq<char>,
    position: u64,
    now: u64,
    threshold: u64,
) -> Seq<RecentView> {
    match first_match(s, |e: RecentView| e.item.rating_key == key) {
        None => s,
        Some(p) => if is_finished(s[p].item.duration_ms, position, threshold) {
            s.remove(p)
        } else {
            seq![stamped(s[p], position, now)] + s.remove(p)
        },
    }
}

/// Stamp a session's final position onto its entry and re-front it; an
/// entry past the watched threshold is finished and leaves the list.
pub fn finish(cfg: &mut AppConfig, rating_key: &str, position_ms: u64, now_ms: u64)
    ensures
        recents_of(*final(cfg)) == finished_list(
            recents_of(*old(cfg)),
            rating_key@,
            position_ms,
            now_ms,
            threshold_of(*old(cfg)),
        ),
        final(cfg).hidden_from_continue == old(cfg).hidden_from_continue,
        same_settings(*final(cfg), *old(cfg)),
{
    let ghost s = recents_of(*cfg);
    let ghost p = |e: RecentView| e.item.rating_key == rating_key@;
    let mut pos: usize = 0;
    let mut found = false;
    while pos < cfg.recents.len()
        invariant_except_break
            pos <= cfg.recents.len(),
            s == recents_of(*cfg),
            p == (|e: RecentView| e.item.rating_key == rating_key@),
            forall|k: int| 0 <= k < pos ==> !p(#[trigger] s[k]),
            !found,
        ensures
            found ==> pos < cfg.recents.len() && p(s[pos as int]),
            !found ==> pos == cfg.recents.len(),
            forall|k: int| 0 <= k < pos ==> !p(#[trigger] s[k]),
            s == recents_of(*cfg),
        decreases cfg.recents.len() - pos,
    {
        assert(s[pos as int] == cfg.recents@[pos as int]@);
        if str_eq(cfg.recents[pos].item.rating_key.as_str(), rating_key) {
            found = true;
            break ;
        }
        pos += 1;
    }
    if !found {
        proof {
            lemma_first_match_none(s, p);
        }
        return ;
    }
    proof {
        lemma_first_match_found(s, p, pos as int);
    }
    let t = threshold(cfg);
    let mut entry = cfg.recents.remove(pos);
    assert(recents_of(*cfg) =~= s.remove(pos as int));
    if finished_now(entry.item.duration_ms, position_ms, t) {
        return ;
    }
    if position_ms > 0 {
        entry.item.view_offset_ms = Some(position_ms);
    }
    entry.ended_at_ms = now_ms;
    let ghost ev = entry@;
    cfg.recents.insert(0, entry);
    assert(recents_of(*cfg) =~= seq![ev] + s.remove(pos as int));
}

/// The feed form of one entry: its snapshot stamped with the session's end,
/// or its start while still open.
pub open spec fn listed(e: RecentView) -> ItemView {
    ItemView {
        last_watched_at_ms: if e.ended_at_ms > 0 {
            Some(e.ended_at_ms)
        } else if e.started_at_ms > 0 {
            Some(e.started_at_ms)
        } else {
            None
        },
        ..e.item
    }
}

/// The feed form of a list of entries.
pub open spec fn listed_all(s: Seq<RecentView>) -> Seq<ItemView> {
    s.map_values(|e: RecentView| listed(e))
}

/// The hero feed: item snapshots, newest first, each stamped for recency.
pub fn list(cfg: &AppConfig) -> (r: Vec<ItemDto>)
    ensures
        crate::source::items_view(r@) == listed_all(recents_of(*cfg)),
{
    let ghost s = recents_of(*cfg);
    let mut out: Vec<ItemDto> = Vec::new();
    let mut i: usize = 0;
    while i < cfg.recents.len()
        invariant
            i <= cfg.recents.len(),
            s == recents_of(*cfg),
            crate::source::items_view(out@) == listed_all(s.take(i as int)),
        decreases cfg.recents.len() - i,
    {
        let r = &cfg.recents[i];
        assert(s[i as int] == r@);
        let mut item = r.item.duplicate();
        item.last_watched_at_ms = if r.ended_at_ms > 0 {
            Some(r.ended_at_ms)
        } else if r.started_at_ms > 0 {
            Some(r.started_at_ms)
        } else {
            None
        };
        let ghost lv = listed(s[i as int]);
        assert(item@ == lv);
        let ghost before = out@;
        out.push(item);
        proof {
            assert(crate::source::items_view(out@) =~= crate::source::items_view(before).push(lv));
            assert(listed_all(s.take(i + 1)) =~= listed_all(s.take(i as int)).push(lv));
        }
        i += 1;
    }
    assert(s.take(i as int) =~= s);
    out
}

// ---- laws ---------------------------------------------------------------------

/// Every entry has its own play key.
pub open spec fn distinct_entries(s: Seq<RecentView>) -> bool {
    forall|i: int, j: int|
        0 <= i < j < s.len() ==> #[trigger] s[i].item.rating_key != #[trigger] s[j].item.rating_key
}

/// At most one entry is named by `key`.
pub open spec fn named_once(s: Seq<RecentView>, key: Seq<char>) -> bool {
    forall|i: int, j: int|
        0 <= i < s.len() && 0 <= j < s.len() && matches_key(#[trigger] s[i], key) && matches_key(
            #[trigger] s[j],
            key,
        ) ==> i == j
}

/// Adding keys keeps what was held in front and appends only keys that were
/// not held.
proof fn lemma_tomb_add_shape(h: Seq<Seq<char>>, keys: Seq<Seq<char>>)
    ensures
        h.len() <= tomb_add(h, keys).len() <= h.len() + keys.len(),
        tomb_add(h, keys).take(h.len() as int) == h,
        forall|i: int|
            h.len() <= i < tomb_add(h, keys).len() ==> !h.contains(#[trigger] tomb_add(h, keys)[i])
                && keys.contains(tomb_add(h, keys)[i]),
    decreases keys.len(),
{
    if keys.len() > 0 {
        let dl = keys.drop_last();
        lemma_tomb_add_shape(h, dl);
        let prev = tomb_add(h, dl);
        assert forall|i: int| h.len() <= i < prev.len() implies keys.contains(#[trigger] prev[i]) by {
            let m = choose|m: int| 0 <= m < dl.len() && dl[m] == prev[i];
            assert(keys[m] == prev[i]);
        }
        if !prev.contains(keys.last()) {
            let r = prev.push(keys.last());
            assert(r.take(h.len() as int) =~= prev.take(h.len() as int));
            assert(keys[keys.len() - 1] == keys.last());
            assert forall|i: int| h.len() <= i < r.len() implies !h.contains(#[trigger] r[i])
                && keys.contains(r[i]) by {
                if i == prev.len() {
                    if h.contains(r[i]) {
                        let m = choose|m: int| 0 <= m < h.len() && h[m] == r[i];
                        assert(prev[m] == h[m]) by {
                            assert(prev.take(h.len() as int)[m] == prev[m]);
                        }
                    }
                } else {
                    assert(r[i] == prev[i]);
                }
            }
        }
    } else {
        assert(h.take(h.len() as int) =~= h);
    }
}

/// Removing keys one by one is one filter against all of them.
proof fn lemma_remove_all_filter(h: Seq<Seq<char>>, keys: Seq<Seq<char>>)
    ensures
        remove_all(h, keys) == h.filter(|k: Seq<char>| !keys.contains(k)),
    decreases keys.len(),
{
    if keys.len() > 0 {
        let dl = keys.drop_last();
        lemma_remove_all_filter(h, dl);
        let p = |k: Seq<char>| !dl.contains(k);
        let q = |k: Seq<char>| k != keys.last();
        lemma_filter_filter(h, p, q);
        assert(keys =~= dl.push(keys.last()));
        assert forall|k: Seq<char>| #[trigger] keys.contains(k) <==> dl.contains(k) || k == keys.last() by {
            if keys.contains(k) {
                let m = choose|m: int| 0 <= m < keys.len() && keys[m] == k;
                if m < dl.len() {
                    assert(dl[m] == k);
                }
            }
            if dl.contains(k) {
                let m = choose|m: int| 0 <= m < dl.len() && dl[m] == k;
                assert(keys[m] == k);
            }
            if k == keys.last() {
                assert(keys[keys.len() - 1] == k);
            }
        }
        assert((|x: Seq<char>| p(x) && q(x)) =~= (|k: Seq<char>| !keys.contains(k)));
    } else {
        let pk = |k: Seq<char>| !keys.contains(k);
        assert forall|k: int| 0 <= k < h.len() implies pk(#[trigger] h[k]) by {}
        lemma_filter_all(h, pk);
    }
}

/// Undoing a hide puts the recents and the tombstones back exactly as they
/// were, provided the entries have distinct play keys, at most one entry is
/// named by the hidden key, and the tombstone list has room for the keys the
/// hide adds (keys the cap evicts are not restored).
pub proof fn law_undo_restores_hide(s: Seq<RecentView>, h: Seq<Seq<char>>, key: Seq<char>)
    requires
        distinct_entries(s),
        named_once(s, key),
        h.len() + 3 <= MAX_HIDDEN,
    ensures
        restored_recents(unrecorded(s, key), undo_of(s, h, key).entry) == s,
        remove_all(tombstoned(h, hide_keys(s, key)), undo_of(s, h, key).added) == h,
{
    let pm = |e: RecentView| matches_key(e, key);
    let pu = |e: RecentView| !matches_key(e, key);
    lemma_first_match_props(s, pm);
    match match_pos(s, key) {
        Some(i) => {
            assert forall|k: int| 0 <= k < s.len() && k != i implies pu(#[trigger] s[k]) by {
                if matches_key(s[k], key) {
                    assert(matches_key(s[i], key));
                }
            }
            lemma_filter_single_drop(s, pu, i);
            let u = s.remove(i);
            assert forall|k: int| 0 <= k < u.len() implies #[trigger] u[k].item.rating_key
                != s[i].item.rating_key by {
                if k < i {
                    assert(u[k] == s[k]);
                } else {
                    assert(u[k] == s[k + 1]);
                }
            }
            assert(u.insert(i, s[i]) =~= s);
        },
        None => {
            lemma_filter_all(s, pu);
        },
    }
    let keys = hide_keys(s, key);
    lemma_tomb_add_shape(h, keys);
    let r = tomb_add(h, keys);
    assert(r.len() <= MAX_HIDDEN);
    let t = r.skip(h.len() as int);
    assert(r =~= h + t);
    let ph = |k: Seq<char>| !h.contains(k);
    assert forall|k: int| 0 <= k < h.len() implies !ph(#[trigger] h[k]) by {
        assert(h.contains(h[k]));
    }
    assert forall|k: int| 0 <= k < t.len() implies ph(#[trigger] t[k]) by {
        assert(t[k] == r[k + h.len()]);
    }
    lemma_filter_none(h, ph);
    lemma_filter_all(t, ph);
    Seq::filter_distributes_over_add(h, t, ph);
    assert(undo_of(s, h, key).added =~= t);
    lemma_remove_all_filter(r, t);
    let pt = |k: Seq<char>| !t.contains(k);
    assert forall|k: int| 0 <= k < h.len() implies pt(#[trigger] h[k]) by {
        if t.contains(h[k]) {
            let m = choose|m: int| 0 <= m < t.len() && t[m] == h[k];
            assert(ph(t[m]));
            assert(h.contains(h[k]));
        }
    }
    assert forall|k: int| 0 <= k < t.len() implies !pt(#[trigger] t[k]) by {
        assert(t.contains(t[k]));
    }
    lemma_filter_all(h, pt);
    lemma_filter_none(t, pt);
    Seq::filter_distributes_over_add(h, t, pt);
    assert(h + Seq::<Seq<char>>::empty() =~= h);
}

/// Recording a play puts it first, keeps one entry per play key and never
/// exceeds [`MAX_RECENTS`].
pub proof fn law_record_fronts_and_dedups(s: Seq<RecentView>, e: RecentView)
    requires
        distinct_entries(s),
    ensures
        recorded(s, e)[0] == e,
        distinct_entries(recorded(s, e)),
        recorded(s, e).len() <= MAX_RECENTS,
{
    let pr = |r: RecentView| r.item.rating_key != e.item.rating_key;
    let f = s.filter(pr);
    let all = seq![e] + f;
    assert(all[0] == e);
    assert forall|i: int, j: int| 0 <= i < j < all.len() implies #[trigger] all[i].item.rating_key
        != #[trigger] all[j].item.rating_key by {
        s.lemma_filter_pred(pr, j - 1);
        if i > 0 {
            s.lemma_filter_pred(pr, i - 1);
            assert(all[i] == f[i - 1]);
            assert(all[j] == f[j - 1]);
            lemma_filter_distinct(s, pr, i - 1, j - 1);
        }
    }
    let r = recorded(s, e);
    assert forall|i: int, j: int| 0 <= i < j < r.len() implies #[trigger] r[i].item.rating_key
        != #[trigger] r[j].item.rating_key by {
        assert(r[i] == all[i]);
        assert(r[j] == all[j]);
    }
}

/// Distinct play keys stay distinct under a filter.
proof fn lemma_filter_distinct(s: Seq<RecentView>, p: spec_fn(RecentView) -> bool, i: int, j: int)
    requires
        distinct_entries(s),
        0 <= i < j < s.filter(p).len(),
    ensures
        s.filter(p)[i].item.rating_key != s.filter(p)[j].item.rating_key,
    decreases s.len(),
{
    reveal_with_fuel(Seq::filter, 1);
    let t = s.drop_last();
    assert forall|a: int, b: int| 0 <= a < b < t.len() implies #[trigger] t[a].item.rating_key
        != #[trigger] t[b].item.rating_key by {
        assert(t[a] == s[a] && t[b] == s[b]);
    }
    let tf = t.filter(p);
    if p(s.last()) && j == tf.len() {
        assert(s.filter(p)[j] == s.last());
        assert(s.filter(p)[i] == tf[i]);
        t.lemma_filter_contains_rev(p, tf[i]);
        assert(tf.contains(tf[i]));
        let m = choose|m: int| 0 <= m < t.len() && t[m] == tf[i];
        assert(s[m] == t[m]);
        assert(s[s.len() - 1] == s.last());
    } else {
        lemma_filter_distinct(t, p, i, j);
        if p(s.last()) {
            assert(s.filter(p)[i] == tf[i]);
            assert(s.filter(p)[j] == tf[j]);
        }
    }
}

/// The tombstone list never grows past [`MAX_HIDDEN`] through a hide.
pub proof fn law_tombstones_capped(h: Seq<Seq<char>>, keys: Seq<Seq<char>>)
    requires
        h.len() <= MAX_HIDDEN,
    ensures
        tombstoned(h, keys).len() <= MAX_HIDDEN,
        h.len() + keys.len() <= MAX_HIDDEN ==> tombstoned(h, keys).take(h.len() as int) == h,
{
    lemma_tomb_add_shape(h, keys);
}

/// The position a stopped play stamps is what Continue Watching resumes
/// from, when the play key names only that entry.
pub proof fn law_finished_position_resumes(
    s: Seq<RecentView>,
    key: Seq<char>,
    session: Seq<char>,
    position: u64,
    now: u64,
    threshold: u64,
)
    requires
        named_once(s, key),
        session_pos(s, key, session) is Some,
        !is_finished(s[session_pos(s, key, session)->0].item.duration_ms, position, threshold),
        position > 0,
    ensures
        resume_stamp(session_finished(s, key, session, position, now, threshold), key) == position,
{
    let p = session_pos(s, key, session)->0;
    lemma_first_match_props(
        s,
        |e: RecentView| e.item.rating_key == key && e.session_id == Some(session),
    );
    let s2 = session_finished(s, key, session, position, now, threshold);
    let pm = |e: RecentView| matches_key(e, key);
    assert(matches_key(s[p], key));
    assert forall|k: int| 0 <= k < p implies !pm(#[trigger] s2[k]) by {
        assert(s2[k] == s[k]);
    }
    assert(pm(s2[p]));
    lemma_first_match_found(s2, pm, p);
}

} // verus!
