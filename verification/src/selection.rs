//! Choosing among duplicate copies of one title: the persisted policy and the
//! deterministic ranking of exact media versions.
//!
//! A ranking is a lexicographic order on an integer key per candidate. Direct
//! play eligibility always comes first, then what the policy cares about, and
//! finally the source and version ids, so no two distinct copies tie.

use vstd::prelude::*;
use crate::text::{chars_of, str_eq};

verus! {

broadcast use vstd::string::group_string_axioms;

/// Whether the display presently shows HDR.
#[derive(Debug, Clone, Copy, PartialEq, Eq, Structural)]
pub enum HdrState {
    Enabled,
    Disabled,
    Unknown,
}

/// How far a media endpoint is from this machine, nearest first.
#[derive(Debug, Clone, Copy, PartialEq, Eq, Structural)]
pub enum EndpointLocality {
    SameMachine,
    Lan,
    Internet,
}

/// Position of a locality in nearest-first order.
pub open spec fn locality_rank(l: EndpointLocality) -> int {
    match l {
        EndpointLocality::SameMachine => 0,
        EndpointLocality::Lan => 1,
        EndpointLocality::Internet => 2,
    }
}

/// Persisted duplicate-copy selection policy. The settings keep the raw value
/// as a tolerant string; this closed type is the only value the rest sees.
#[derive(Debug, Clone, Copy, PartialEq, Eq, Structural)]
pub enum PlaybackSourcePolicy {
    Best,
    Compatible,
    Fastest,
    Ask,
}

/// The policy a stored value names; anything unknown is the fail-safe Best.
pub open spec fn policy_named(value: Option<Seq<char>>) -> PlaybackSourcePolicy {
    match value {
        Some(v) => if v == "compatible"@ {
            PlaybackSourcePolicy::Compatible
        } else if v == "fastest"@ {
            PlaybackSourcePolicy::Fastest
        } else if v == "ask"@ {
            PlaybackSourcePolicy::Ask
        } else {
            PlaybackSourcePolicy::Best
        },
        None => PlaybackSourcePolicy::Best,
    }
}

impl Default for PlaybackSourcePolicy {
    fn default() -> (r: Self)
        ensures
            r == PlaybackSourcePolicy::Best,
    {
        PlaybackSourcePolicy::Best
    }
}

impl PlaybackSourcePolicy {
    pub fn normalize(value: Option<&str>) -> (r: Self)
        ensures
            r == policy_named(
                match value {
                    Some(v) => Some(v@),
                    None => None,
                },
            ),
    {
        match value {
            Some(v) => if str_eq(v, "compatible") {
                PlaybackSourcePolicy::Compatible
            } else if str_eq(v, "fastest") {
                PlaybackSourcePolicy::Fastest
            } else if str_eq(v, "ask") {
                PlaybackSourcePolicy::Ask
            } else {
                PlaybackSourcePolicy::Best
            },
            None => PlaybackSourcePolicy::Best,
        }
    }

    pub fn as_str(self) -> (r: &'static str)
        ensures
            r@ == match self {
                PlaybackSourcePolicy::Best => "best"@,
                PlaybackSourcePolicy::Compatible => "compatible"@,
                PlaybackSourcePolicy::Fastest => "fastest"@,
                PlaybackSourcePolicy::Ask => "ask"@,
            },
    {
        match self {
            PlaybackSourcePolicy::Best => "best",
            PlaybackSourcePolicy::Compatible => "compatible",
            PlaybackSourcePolicy::Fastest => "fastest",
            PlaybackSourcePolicy::Ask => "ask",
        }
    }
}

/// Provider-neutral facts needed to rank one exact media version.
#[derive(Debug, Clone, PartialEq, Eq)]
pub struct PlaybackCandidate {
    pub source_id: String,
    pub version_id: String,
    pub width: u32,
    pub height: u32,
    pub hdr: bool,
    pub bitrate: u64,
    /// Lower is better. Eligibility is decided before quality so an
    /// unsupported version can never win on pixels alone.
    pub direct_play_rank: u8,
    pub locality: EndpointLocality,
}

/// The abstract content of a [`PlaybackCandidate`].
pub struct CandidateView {
    pub source_id: Seq<char>,
    pub version_id: Seq<char>,
    pub width: u32,
    pub height: u32,
    pub hdr: bool,
    pub bitrate: u64,
    pub direct_play_rank: u8,
    pub locality: EndpointLocality,
}

impl View for PlaybackCandidate {
    type V = CandidateView;

    open spec fn view(&self) -> CandidateView {
        CandidateView {
            source_id: self.source_id@,
            version_id: self.version_id@,
            width: self.width,
            height: self.height,
            hdr: self.hdr,
            bitrate: self.bitrate,
            direct_play_rank: self.direct_play_rank,
            locality: self.locality,
        }
    }
}

/// The display envelope a Compatible choice has to fit.
#[derive(Debug, Clone, Copy, PartialEq, Eq, Structural)]
pub struct CompatibilityTarget {
    pub width: u32,
    pub height: u32,
    pub hdr: HdrState,
}

// ---- the ranking key ----------------------------------------------------------

/// Lexicographic three-way order of integer sequences (a proper prefix
/// comes first): negative, zero or positive.
pub open spec fn lex(a: Seq<int>, b: Seq<int>) -> int
    decreases a.len(),
{
    if a.len() == 0 {
        if b.len() == 0 {
            0
        } else {
            -1
        }
    } else if b.len() == 0 {
        1
    } else if a[0] < b[0] {
        -1
    } else if a[0] > b[0] {
        1
    } else {
        lex(a.drop_first(), b.drop_first())
    }
}

pub open spec fn bit(b: bool) -> int {
    if b {
        1
    } else {
        0
    }
}

/// A string as key material: each character's code point shifted up by one,
/// then a zero terminator, so a proper prefix sorts first and the next key
/// part only decides between equal strings.
pub open spec fn string_key(s: Seq<char>) -> Seq<int> {
    s.map_values(|c: char| (c as u32) as int + 1).push(0)
}

/// Best quality first: height, width, HDR, bitrate, all descending.
pub open spec fn quality_key(c: CandidateView) -> Seq<int> {
    seq![-(c.height as int), -(c.width as int), -bit(c.hdr), -(c.bitrate as int)]
}

/// The candidate's HDR flag suits the display; Unknown follows SDR.
pub open spec fn hdr_matches(c: CandidateView, t: CompatibilityTarget) -> bool {
    match t.hdr {
        HdrState::Enabled => c.hdr,
        _ => !c.hdr,
    }
}

/// The candidate fits the display envelope.
pub open spec fn fits(c: CandidateView, t: CompatibilityTarget) -> bool {
    c.width <= t.width && c.height <= t.height
}

/// Fitting versions first, matching HDR and then the highest resolution;
/// when nothing fits the nearest larger resolution wins, HDR match and
/// bitrate breaking ties inside it.
pub open spec fn compatible_key(c: CandidateView, t: CompatibilityTarget) -> Seq<int> {
    if fits(c, t) {
        seq![
            0,
            -bit(hdr_matches(c, t)),
            -(c.height as int),
            -(c.width as int),
            -(c.bitrate as int),
        ]
    } else {
        seq![1, c.height as int, c.width as int, -bit(hdr_matches(c, t)), -(c.bitrate as int)]
    }
}

/// What the policy ranks by.
pub open spec fn policy_key(
    c: CandidateView,
    policy: PlaybackSourcePolicy,
    target: Option<CompatibilityTarget>,
) -> Seq<int> {
    match policy {
        PlaybackSourcePolicy::Compatible => match target {
            Some(t) => compatible_key(c, t),
            None => quality_key(c),
        },
        PlaybackSourcePolicy::Fastest => seq![locality_rank(c.locality)] + quality_key(c),
        _ => quality_key(c),
    }
}

/// The full ranking key of a candidate.
pub open spec fn rank_key(
    c: CandidateView,
    policy: PlaybackSourcePolicy,
    target: Option<CompatibilityTarget>,
) -> Seq<int> {
    seq![c.direct_play_rank as int] + policy_key(c, policy, target) + string_key(c.source_id)
        + string_key(c.version_id)
}

/// `c` ranks strictly after `d`.
pub open spec fn ranks_after(
    c: CandidateView,
    d: CandidateView,
    policy: PlaybackSourcePolicy,
    target: Option<CompatibilityTarget>,
) -> bool {
    lex(rank_key(c, policy, target), rank_key(d, policy, target)) > 0
}

/// Where a stable insertion puts `x`: before the first element ranking
/// strictly after it.
pub open spec fn insert_at(
    t: Seq<CandidateView>,
    x: CandidateView,
    policy: PlaybackSourcePolicy,
    target: Option<CompatibilityTarget>,
) -> int
    decreases t.len(),
{
    if t.len() == 0 {
        0
    } else if ranks_after(t[0], x, policy, target) {
        0
    } else {
        1 + insert_at(t.drop_first(), x, policy, target)
    }
}

/// The ranked order: a stable sort by [`rank_key`].
pub open spec fn ranked(
    s: Seq<CandidateView>,
    policy: PlaybackSourcePolicy,
    target: Option<CompatibilityTarget>,
) -> Seq<CandidateView>
    decreases s.len(),
{
    if s.len() == 0 {
        s
    } else {
        let t = ranked(s.drop_last(), policy, target);
        t.insert(insert_at(t, s.last(), policy, target), s.last())
    }
}

pub open spec fn candidates_view(v: Seq<PlaybackCandidate>) -> Seq<CandidateView> {
    v.map_values(|c: PlaybackCandidate| c@)
}

pub open spec fn ints(v: Seq<i128>) -> Seq<int> {
    v.map_values(|x: i128| x as int)
}

// ---- executable ranking -----------------------------------------------------

pub(crate) fn push_string_key(v: &mut Vec<i128>, s: &str)
    ensures
        ints(final(v)@) == ints(old(v)@) + string_key(s@),
{
    let cs = chars_of(s);
    let ghost start = ints(v@);
    let mut i: usize = 0;
    while i < cs.len()
        invariant
            i <= cs.len(),
            cs@ == s@,
            ints(v@) == start + s@.take(i as int).map_values(|c: char| (c as u32) as int + 1),
        decreases cs.len() - i,
    {
        let ghost before = v@;
        let code: u32 = cs[i] as u32;
        v.push(code as i128 + 1);
        proof {
            assert(ints(v@) =~= ints(before).push((cs@[i as int] as u32) as int + 1));
            assert(s@.take(i + 1).map_values(|c: char| (c as u32) as int + 1) =~= s@.take(
                i as int,
            ).map_values(|c: char| (c as u32) as int + 1).push((s@[i as int] as u32) as int + 1));
        }
        i += 1;
    }
    let ghost before = v@;
    v.push(0);
    assert(s@.take(i as int) =~= s@);
    assert(ints(v@) =~= ints(before).push(0));
    assert(ints(v@) =~= start + string_key(s@));
}

fn push_all(v: &mut Vec<i128>, parts: &[i128])
    ensures
        ints(final(v)@) == ints(old(v)@) + ints(parts@),
{
    let ghost start = ints(v@);
    let mut i: usize = 0;
    while i < parts.len()
        invariant
            i <= parts.len(),
            ints(v@) == start + ints(parts@.take(i as int)),
        decreases parts.len() - i,
    {
        let ghost before = v@;
        v.push(parts[i]);
        assert(ints(v@) =~= ints(before).push(parts@[i as int] as int));
        assert(ints(parts@.take(i + 1)) =~= ints(parts@.take(i as int)).push(parts@[i as int] as int));
        i += 1;
    }
    assert(parts@.take(i as int) =~= parts@);
}

fn quality_parts(c: &PlaybackCandidate) -> (r: [i128; 4])
    ensures
        ints(r@) == quality_key(c@),
{
    let r = [
        -(c.height as i128),
        -(c.width as i128),
        -(if c.hdr { 1i128 } else { 0i128 }),
        -(c.bitrate as i128),
    ];
    assert(ints(r@) =~= quality_key(c@));
    r
}

fn hdr_suits(c: &PlaybackCandidate, t: &CompatibilityTarget) -> (r: bool)
    ensures
        r == hdr_matches(c@, *t),
{
    match t.hdr {
        HdrState::Enabled => c.hdr,
        _ => !c.hdr,
    }
}

/// The ranking key of a candidate under a policy.
pub fn rank_key_of(
    c: &PlaybackCandidate,
    policy: PlaybackSourcePolicy,
    target: Option<CompatibilityTarget>,
) -> (r: Vec<i128>)
    ensures
        ints(r@) == rank_key(c@, policy, target),
{
    let mut v: Vec<i128> = Vec::new();
    v.push(c.direct_play_rank as i128);
    assert(ints(v@) =~= seq![c.direct_play_rank as int]);
    match policy {
        PlaybackSourcePolicy::Compatible => match target {
            Some(t) => {
                let m: i128 = if hdr_suits(c, &t) {
                    1
                } else {
                    0
                };
                if c.width <= t.width && c.height <= t.height {
                    let parts = [
                        0i128,
                        -m,
                        -(c.height as i128),
                        -(c.width as i128),
                        -(c.bitrate as i128),
                    ];
                    assert(ints(parts@) =~= compatible_key(c@, t));
                    push_all(&mut v, &parts);
                } else {
                    let parts = [
                        1i128,
                        c.height as i128,
                        c.width as i128,
                        -m,
                        -(c.bitrate as i128),
                    ];
                    assert(ints(parts@) =~= compatible_key(c@, t));
                    push_all(&mut v, &parts);
                }
            },
            None => {
                let parts = quality_parts(c);
                push_all(&mut v, &parts);
            },
        },
        PlaybackSourcePolicy::Fastest => {
            let l: i128 = match c.locality {
                EndpointLocality::SameMachine => 0,
                EndpointLocality::Lan => 1,
                EndpointLocality::Internet => 2,
            };
            let ghost before = v@;
            v.push(l);
            assert(ints(v@) =~= ints(before).push(locality_rank(c.locality)));
            let parts = quality_parts(c);
            push_all(&mut v, &parts);
            assert(ints(v@) =~= seq![c.direct_play_rank as int] + (seq![locality_rank(c.locality)]
                + quality_key(c@)));
        },
        _ => {
            let parts = quality_parts(c);
            push_all(&mut v, &parts);
        },
    }
    push_string_key(&mut v, c.source_id.as_str());
    push_string_key(&mut v, c.version_id.as_str());
    v
}

/// Lexicographic three-way order of two keys.
pub fn lex_order(a: &Vec<i128>, b: &Vec<i128>) -> (r: i8)
    ensures
        r as int == lex(ints(a@), ints(b@)),
        -1 <= r <= 1,
{
    let ghost x = ints(a@);
    let ghost y = ints(b@);
    let mut i: usize = 0;
    assert(x.skip(0) =~= x);
    assert(y.skip(0) =~= y);
    while i < a.len() && i < b.len()
        invariant
            i <= a.len(),
            i <= b.len(),
            x == ints(a@),
            y == ints(b@),
            lex(x, y) == lex(x.skip(i as int), y.skip(i as int)),
        decreases a.len() - i,
    {
        assert(x.skip(i as int)[0] == a@[i as int] as int);
        assert(y.skip(i as int)[0] == b@[i as int] as int);
        if a[i] < b[i] {
            return -1;
        }
        if a[i] > b[i] {
            return 1;
        }
        assert(x.skip(i as int).drop_first() =~= x.skip(i + 1));
        assert(y.skip(i as int).drop_first() =~= y.skip(i + 1));
        i += 1;
    }
    if i < a.len() {
        1
    } else if i < b.len() {
        -1
    } else {
        0
    }
}

/// Deterministically rank exact versions for an automatic policy (a stable
/// sort by [`rank_key`]). Ask uses the Best order.
pub fn rank_candidates(
    candidates: &mut Vec<PlaybackCandidate>,
    policy: PlaybackSourcePolicy,
    target: Option<CompatibilityTarget>,
)
    ensures
        candidates_view(final(candidates)@) == ranked(candidates_view(old(candidates)@), policy, target),
{
    let ghost s = candidates_view(candidates@);
    let mut rest: Vec<PlaybackCandidate> = Vec::new();
    std::mem::swap(&mut rest, candidates);
    let mut out: Vec<PlaybackCandidate> = Vec::new();
    let ghost mut j: int = 0;
    while rest.len() > 0
        invariant
            0 <= j <= s.len(),
            rest.len() == s.len() - j,
            candidates_view(rest@) == s.skip(j),
            candidates_view(out@) == ranked(s.take(j), policy, target),
        decreases rest.len(),
    {
        let ghost raw = rest@;
        let x = rest.remove(0);
        proof {
            assert(candidates_view(rest@) =~= candidates_view(raw).skip(1));
            assert(candidates_view(raw)[0] == x@);
            assert(s.skip(j)[0] == s[j]);
            assert(s.skip(j).skip(1) =~= s.skip(j + 1));
            assert(s.take(j + 1).drop_last() =~= s.take(j));
            assert(s.take(j + 1).last() == s[j]);
        }
        let ghost t = candidates_view(out@);
        let kx = rank_key_of(&x, policy, target);
        let mut at: usize = 0;
        assert(t.skip(0) =~= t);
        while at < out.len()
            invariant_except_break
                at <= out.len(),
                t == candidates_view(out@),
                ints(kx@) == rank_key(x@, policy, target),
                insert_at(t, x@, policy, target) == at + insert_at(t.skip(at as int), x@, policy, target),
            ensures
                at <= out.len(),
                insert_at(t, x@, policy, target) == at,
            decreases out.len() - at,
        {
            assert(t.skip(at as int)[0] == out@[at as int]@);
            let ko = rank_key_of(&out[at], policy, target);
            if lex_order(&ko, &kx) > 0 {
                break ;
            }
            assert(t.skip(at as int).drop_first() =~= t.skip(at + 1));
            at += 1;
        }
        proof {
            if at == out.len() {
                assert(t.skip(at as int).len() == 0);
            }
        }
        let ghost xv = x@;
        out.insert(at, x);
        assert(candidates_view(out@) =~= t.insert(at as int, xv));
        proof {
            j = j + 1;
        }
    }
    assert(s.take(j) =~= s);
    *candidates = out;
}

// ---- laws ---------------------------------------------------------------------

pub proof fn lemma_lex_antisym(a: Seq<int>, b: Seq<int>)
    ensures
        lex(a, b) == -lex(b, a),
    decreases a.len(),
{
    if a.len() > 0 && b.len() > 0 && a[0] == b[0] {
        lemma_lex_antisym(a.drop_first(), b.drop_first());
    }
}

pub proof fn lemma_lex_trans(a: Seq<int>, b: Seq<int>, c: Seq<int>)
    requires
        lex(a, b) <= 0,
        lex(b, c) <= 0,
    ensures
        lex(a, c) <= 0,
    decreases a.len(),
{
    if a.len() > 0 && b.len() > 0 && c.len() > 0 && a[0] == b[0] && b[0] == c[0] {
        lemma_lex_trans(a.drop_first(), b.drop_first(), c.drop_first());
    }
}

/// The elements ranked no later than `x`, and the first after it.
proof fn lemma_insert_at(
    t: Seq<CandidateView>,
    x: CandidateView,
    policy: PlaybackSourcePolicy,
    target: Option<CompatibilityTarget>,
)
    ensures
        0 <= insert_at(t, x, policy, target) <= t.len(),
        forall|k: int|
            0 <= k < insert_at(t, x, policy, target) ==> !ranks_after(#[trigger] t[k], x, policy, target),
        insert_at(t, x, policy, target) < t.len() ==> ranks_after(
            t[insert_at(t, x, policy, target)],
            x,
            policy,
            target,
        ),
    decreases t.len(),
{
    if t.len() > 0 && !ranks_after(t[0], x, policy, target) {
        let d = t.drop_first();
        lemma_insert_at(d, x, policy, target);
        assert forall|k: int| 0 <= k < insert_at(t, x, policy, target) implies !ranks_after(
            #[trigger] t[k],
            x,
            policy,
            target,
        ) by {
            if k > 0 {
                assert(t[k] == d[k - 1]);
            }
        }
    }
}

/// No element ranks after a later one.
pub open spec fn rank_sorted(
    t: Seq<CandidateView>,
    policy: PlaybackSourcePolicy,
    target: Option<CompatibilityTarget>,
) -> bool {
    forall|i: int, j: int|
        0 <= i < j < t.len() ==> !ranks_after(#[trigger] t[i], #[trigger] t[j], policy, target)
}

/// The ranked order is sorted by the ranking key and holds exactly the
/// candidates it was given.
pub proof fn law_ranked_is_sorted_permutation(
    s: Seq<CandidateView>,
    policy: PlaybackSourcePolicy,
    target: Option<CompatibilityTarget>,
)
    ensures
        rank_sorted(ranked(s, policy, target), policy, target),
        ranked(s, policy, target).to_multiset() == s.to_multiset(),
    decreases s.len(),
{
    broadcast use vstd::seq_lib::to_multiset_build, vstd::seq_lib::to_multiset_insert;

    if s.len() > 0 {
        let d = s.drop_last();
        law_ranked_is_sorted_permutation(d, policy, target);
        let t = ranked(d, policy, target);
        let x = s.last();
        lemma_insert_at(t, x, policy, target);
        let p = insert_at(t, x, policy, target);
        let u = t.insert(p, x);
        assert(s =~= d.push(x));
        assert forall|i: int, j: int| 0 <= i < j < u.len() implies !ranks_after(
            #[trigger] u[i],
            #[trigger] u[j],
            policy,
            target,
        ) by {
            let kx = rank_key(x, policy, target);
            if j < p {
                assert(u[i] == t[i] && u[j] == t[j]);
            } else if j == p {
                assert(u[i] == t[i]);
            } else if i == p {
                assert(u[j] == t[j - 1]);
                let kp = rank_key(t[p], policy, target);
                let kj = rank_key(t[j - 1], policy, target);
                lemma_lex_antisym(kp, kx);
                if p < j - 1 {
                    assert(!ranks_after(t[p], t[j - 1], policy, target));
                    lemma_lex_trans(kx, kp, kj);
                } else {
                    lemma_lex_antisym(kx, kj);
                }
            } else if i < p {
                assert(u[i] == t[i] && u[j] == t[j - 1]);
            } else {
                assert(u[i] == t[i - 1] && u[j] == t[j - 1]);
            }
        }
    }
}

/// No two candidates are the same version of the same source.
pub open spec fn distinct_versions(s: Seq<CandidateView>) -> bool {
    forall|i: int, j: int|
        0 <= i < s.len() && 0 <= j < s.len() && i != j ==> !((#[trigger] s[i]).source_id
            == (#[trigger] s[j]).source_id && s[i].version_id == s[j].version_id)
}

/// Where a stable insertion puts `x` into `t`.
pub open spec fn placed(
    t: Seq<CandidateView>,
    x: CandidateView,
    policy: PlaybackSourcePolicy,
    target: Option<CompatibilityTarget>,
) -> Seq<CandidateView> {
    t.insert(insert_at(t, x, policy, target), x)
}

proof fn lemma_lex_zero(a: Seq<int>, b: Seq<int>)
    requires
        lex(a, b) == 0,
    ensures
        a == b,
    decreases a.len(),
{
    if a.len() > 0 && b.len() > 0 {
        lemma_lex_zero(a.drop_first(), b.drop_first());
        assert(a =~= seq![a[0]] + a.drop_first());
        assert(b =~= seq![b[0]] + b.drop_first());
    } else {
        assert(a.len() == 0 && b.len() == 0);
        assert(a =~= b);
    }
}

proof fn lemma_code_inj(x: char, y: char)
    requires
        (x as u32) as int + 1 == (y as u32) as int + 1,
    ensures
        x == y,
{
}

proof fn lemma_string_keys_split(a: Seq<char>, b: Seq<char>, c: Seq<char>, d: Seq<char>)
    requires
        string_key(a) + string_key(b) == string_key(c) + string_key(d),
    ensures
        a == c,
        b == d,
{
    let l = string_key(a) + string_key(b);
    let r = string_key(c) + string_key(d);
    if a.len() < c.len() {
        assert(l[a.len() as int] == 0);
        assert(r[a.len() as int] == (c[a.len() as int] as u32) as int + 1);
        assert(false);
    }
    if c.len() < a.len() {
        assert(r[c.len() as int] == 0);
        assert(l[c.len() as int] == (a[c.len() as int] as u32) as int + 1);
        assert(false);
    }
    assert forall|i: int| 0 <= i < a.len() implies a[i] == c[i] by {
        assert(l[i] == (a[i] as u32) as int + 1);
        assert(r[i] == (c[i] as u32) as int + 1);
        lemma_code_inj(a[i], c[i]);
    }
    assert(a =~= c);
    let n = a.len() + 1;
    assert(l.skip(n as int) =~= string_key(b));
    assert(r.skip(n as int) =~= string_key(d));
    assert(b.len() == d.len()) by {
        assert(string_key(b).len() == string_key(d).len());
    }
    assert forall|i: int| 0 <= i < b.len() implies b[i] == d[i] by {
        assert(string_key(b)[i] == (b[i] as u32) as int + 1);
        assert(string_key(d)[i] == (d[i] as u32) as int + 1);
        assert(l.skip(n as int)[i] == r.skip(n as int)[i]);
        lemma_code_inj(b[i], d[i]);
    }
    assert(b =~= d);
}

/// Two candidates whose ranking keys tie are the same version of the same
/// source.
proof fn lemma_tied_keys_same_version(
    c: CandidateView,
    d: CandidateView,
    policy: PlaybackSourcePolicy,
    target: Option<CompatibilityTarget>,
)
    requires
        lex(rank_key(c, policy, target), rank_key(d, policy, target)) == 0,
    ensures
        c.source_id == d.source_id,
        c.version_id == d.version_id,
{
    lemma_lex_zero(rank_key(c, policy, target), rank_key(d, policy, target));
    let pc = seq![c.direct_play_rank as int] + policy_key(c, policy, target);
    let pd = seq![d.direct_play_rank as int] + policy_key(d, policy, target);
    assert(pc.len() == pd.len());
    let n = pc.len() as int;
    assert(rank_key(c, policy, target) =~= pc + (string_key(c.source_id) + string_key(c.version_id)));
    assert(rank_key(d, policy, target) =~= pd + (string_key(d.source_id) + string_key(d.version_id)));
    assert(rank_key(c, policy, target).skip(n) =~= string_key(c.source_id) + string_key(c.version_id));
    assert(rank_key(d, policy, target).skip(n) =~= string_key(d.source_id) + string_key(d.version_id));
    lemma_string_keys_split(c.source_id, c.version_id, d.source_id, d.version_id);
}

proof fn lemma_ranks_after_trans(
    r: CandidateView,
    a: CandidateView,
    b: CandidateView,
    policy: PlaybackSourcePolicy,
    target: Option<CompatibilityTarget>,
)
    requires
        ranks_after(r, a, policy, target),
        ranks_after(a, b, policy, target),
    ensures
        ranks_after(r, b, policy, target),
{
    let (kr, ka, kb) = (rank_key(r, policy, target), rank_key(a, policy, target), rank_key(b, policy, target));
    lemma_lex_antisym(kr, ka);
    lemma_lex_antisym(ka, kb);
    lemma_lex_antisym(kr, kb);
    lemma_lex_trans(kb, ka, kr);
    if lex(kr, kb) == 0 {
        lemma_lex_zero(kr, kb);
    }
}

proof fn lemma_placed_unfold(
    t: Seq<CandidateView>,
    x: CandidateView,
    policy: PlaybackSourcePolicy,
    target: Option<CompatibilityTarget>,
)
    ensures
        t.len() == 0 ==> placed(t, x, policy, target) == seq![x],
        t.len() > 0 ==> placed(t, x, policy, target) == if ranks_after(t[0], x, policy, target) {
            seq![x] + t
        } else {
            seq![t[0]] + placed(t.drop_first(), x, policy, target)
        },
{
    if t.len() == 0 {
        assert(t.insert(0, x) =~= seq![x]);
    } else if ranks_after(t[0], x, policy, target) {
        assert(t.insert(0, x) =~= seq![x] + t);
    } else {
        let d = t.drop_first();
        let k = insert_at(d, x, policy, target);
        lemma_insert_at(d, x, policy, target);
        assert(t.insert(k + 1, x) =~= seq![t[0]] + d.insert(k, x));
    }
}

proof fn lemma_placed_commute(
    t: Seq<CandidateView>,
    a: CandidateView,
    b: CandidateView,
    policy: PlaybackSourcePolicy,
    target: Option<CompatibilityTarget>,
)
    requires
        lex(rank_key(a, policy, target), rank_key(b, policy, target)) != 0,
    ensures
        placed(placed(t, a, policy, target), b, policy, target) == placed(
            placed(t, b, policy, target),
            a,
            policy,
            target,
        ),
    decreases t.len(),
{
    lemma_lex_antisym(rank_key(a, policy, target), rank_key(b, policy, target));
    let ab = ranks_after(a, b, policy, target);
    assert(ab <==> !ranks_after(b, a, policy, target));
    lemma_placed_unfold(t, a, policy, target);
    lemma_placed_unfold(t, b, policy, target);
    if t.len() == 0 {
        lemma_placed_unfold(seq![a], b, policy, target);
        lemma_placed_unfold(seq![b], a, policy, target);
        lemma_placed_unfold(Seq::<CandidateView>::empty(), a, policy, target);
        lemma_placed_unfold(Seq::<CandidateView>::empty(), b, policy, target);
        assert(seq![a].drop_first() =~= Seq::<CandidateView>::empty());
        assert(seq![b].drop_first() =~= Seq::<CandidateView>::empty());
        assert(placed(placed(t, a, policy, target), b, policy, target) =~= placed(
            placed(t, b, policy, target),
            a,
            policy,
            target,
        ));
    } else {
        let r = t[0];
        let rest = t.drop_first();
        let ra = ranks_after(r, a, policy, target);
        let rb = ranks_after(r, b, policy, target);
        if ra && rb {
            let ta = seq![a] + t;
            let tb = seq![b] + t;
            lemma_placed_unfold(ta, b, policy, target);
            lemma_placed_unfold(tb, a, policy, target);
            assert(ta.drop_first() =~= t);
            assert(tb.drop_first() =~= t);
            assert(placed(placed(t, a, policy, target), b, policy, target) =~= placed(
                placed(t, b, policy, target),
                a,
                policy,
                target,
            ));
        } else if ra && !rb {
            if ab {
                lemma_ranks_after_trans(r, a, b, policy, target);
            }
            let ta = seq![a] + t;
            let pb = placed(rest, b, policy, target);
            let tb = seq![r] + pb;
            lemma_placed_unfold(ta, b, policy, target);
            lemma_placed_unfold(tb, a, policy, target);
            assert(ta.drop_first() =~= t);
            assert(tb.drop_first() =~= pb);
            assert(placed(placed(t, a, policy, target), b, policy, target) =~= placed(
                placed(t, b, policy, target),
                a,
                policy,
                target,
            ));
        } else if !ra && rb {
            if !ab {
                lemma_ranks_after_trans(r, b, a, policy, target);
            }
            let tb = seq![b] + t;
            let pa = placed(rest, a, policy, target);
            let ta = seq![r] + pa;
            lemma_placed_unfold(tb, a, policy, target);
            lemma_placed_unfold(ta, b, policy, target);
            assert(tb.drop_first() =~= t);
            assert(ta.drop_first() =~= pa);
            assert(placed(placed(t, a, policy, target), b, policy, target) =~= placed(
                placed(t, b, policy, target),
                a,
                policy,
                target,
            ));
        } else {
            let pa = placed(rest, a, policy, target);
            let pb = placed(rest, b, policy, target);
            let ta = seq![r] + pa;
            let tb = seq![r] + pb;
            lemma_placed_unfold(ta, b, policy, target);
            lemma_placed_unfold(tb, a, policy, target);
            assert(ta.drop_first() =~= pa);
            assert(tb.drop_first() =~= pb);
            lemma_placed_commute(rest, a, b, policy, target);
            assert(placed(placed(t, a, policy, target), b, policy, target) =~= placed(
                placed(t, b, policy, target),
                a,
                policy,
                target,
            ));
        }
    }
}

proof fn lemma_distinct_remove(s: Seq<CandidateView>, j: int)
    requires
        0 <= j < s.len(),
        distinct_versions(s),
    ensures
        distinct_versions(s.remove(j)),
{
    let t = s.remove(j);
    assert forall|a: int, b: int|
        0 <= a < t.len() && 0 <= b < t.len() && a != b implies !((#[trigger] t[a]).source_id
        == (#[trigger] t[b]).source_id && t[a].version_id == t[b].version_id) by {
        let ia = if a < j {
            a
        } else {
            a + 1
        };
        let ib = if b < j {
            b
        } else {
            b + 1
        };
        assert(t[a] == s[ia]);
        assert(t[b] == s[ib]);
    }
}

/// Ranking is inserting any one candidate into the ranking of the others.
proof fn lemma_ranked_remove(
    s: Seq<CandidateView>,
    j: int,
    policy: PlaybackSourcePolicy,
    target: Option<CompatibilityTarget>,
)
    requires
        0 <= j < s.len(),
        distinct_versions(s),
    ensures
        ranked(s, policy, target) == placed(ranked(s.remove(j), policy, target), s[j], policy, target),
    decreases s.len(),
{
    let n = s.len() as int;
    if j == n - 1 {
        assert(s.remove(j) =~= s.drop_last());
    } else {
        let d = s.drop_last();
        assert(d =~= s.remove(n - 1));
        lemma_distinct_remove(s, n - 1);
        lemma_ranked_remove(d, j, policy, target);
        let rr = ranked(d.remove(j), policy, target);
        assert(s.remove(j).drop_last() =~= d.remove(j));
        assert(s.remove(j).last() == s.last());
        assert(d[j] == s[j]);
        if lex(rank_key(s[j], policy, target), rank_key(s.last(), policy, target)) == 0 {
            lemma_tied_keys_same_version(s[j], s.last(), policy, target);
            assert(s[j] == s[j] && s[n - 1] == s.last());
            assert(false);
        }
        lemma_placed_commute(rr, s[j], s.last(), policy, target);
    }
}

/// Ranking is deterministic: two arrivals of the same candidates, none of
/// them the same version of the same source twice, rank in the same order.
pub proof fn law_ranking_ignores_arrival_order(
    s1: Seq<CandidateView>,
    s2: Seq<CandidateView>,
    policy: PlaybackSourcePolicy,
    target: Option<CompatibilityTarget>,
)
    requires
        s1.to_multiset() == s2.to_multiset(),
        distinct_versions(s1),
        distinct_versions(s2),
    ensures
        ranked(s1, policy, target) == ranked(s2, policy, target),
    decreases s1.len(),
{
    broadcast use vstd::seq_lib::to_multiset_len, vstd::seq_lib::to_multiset_contains,
        vstd::seq_lib::to_multiset_remove;

    vstd::seq_lib::to_multiset_len(s1);
    vstd::seq_lib::to_multiset_len(s2);
    if s1.len() == 0 {
        assert(s2.len() == 0);
        assert(s1 =~= s2);
    } else {
        let n = s1.len() as int;
        let x = s1.last();
        assert(s1.contains(x)) by {
            assert(s1[n - 1] == x);
        }
        assert(s1.to_multiset().count(x) > 0);
        assert(s2.to_multiset().count(x) > 0);
        assert(s2.contains(x));
        let j = choose|j: int| 0 <= j < s2.len() && s2[j] == x;
        let d1 = s1.drop_last();
        let d2 = s2.remove(j);
        assert(d1 =~= s1.remove(n - 1));
        assert(d1.to_multiset() == s1.to_multiset().remove(x));
        assert(d2.to_multiset() == s2.to_multiset().remove(x));
        lemma_distinct_remove(s1, n - 1);
        lemma_distinct_remove(s2, j);
        law_ranking_ignores_arrival_order(d1, d2, policy, target);
        lemma_ranked_remove(s2, j, policy, target);
    }
}

} // verus!
