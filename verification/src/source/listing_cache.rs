//! The listing cache for the local family (plain folders and SMB/SSH
//! mounts): browsed levels, detected section kinds and the set of levels
//! whose background re-walk is in flight. Persisting it and reading the
//! clock are the caller's business; the cache itself is plain data.

use vstd::prelude::*;
use crate::recents::opt_int;
use crate::source::{items_view, ItemDto, ItemView};
use crate::text::{opt_view, str_eq};

verus! {

broadcast use vstd::string::group_string_axioms;

/// Bound on cached levels; the oldest walks are evicted first.
pub const MAX_LEVELS: usize = 512;

/// The on-disk format version.
pub const SCHEMA: u32 = 1;

/// One walked level: its full, unpaged listing and when it was walked.
#[derive(Debug, Clone)]
pub struct LevelSnapshot {
    pub items: Vec<ItemDto>,
    pub walked_at_ms: u64,
}

/// The abstract content of a [`LevelSnapshot`].
pub struct LevelView {
    pub items: Seq<ItemView>,
    pub walked_at_ms: u64,
}

impl View for LevelSnapshot {
    type V = LevelView;

    open spec fn view(&self) -> LevelView {
        LevelView { items: items_view(self.items@), walked_at_ms: self.walked_at_ms }
    }
}

/// Browsed levels, detected kinds and in-flight revalidations.
pub struct ListingCache {
    levels: Vec<(String, LevelSnapshot)>,
    kinds: Vec<(String, String)>,
    pending: Vec<String>,
}

/// The abstract content of a [`ListingCache`]: each table as a sequence of
/// entries, in insertion order.
pub struct CacheView {
    pub levels: Seq<(Seq<char>, LevelView)>,
    pub kinds: Seq<(Seq<char>, Seq<char>)>,
    pub pending: Seq<Seq<char>>,
}

pub open spec fn levels_view(v: Seq<(String, LevelSnapshot)>) -> Seq<(Seq<char>, LevelView)> {
    v.map_values(|e: (String, LevelSnapshot)| (e.0@, e.1@))
}

pub open spec fn kinds_view(v: Seq<(String, String)>) -> Seq<(Seq<char>, Seq<char>)> {
    v.map_values(|e: (String, String)| (e.0@, e.1@))
}

impl View for ListingCache {
    type V = CacheView;

    closed spec fn view(&self) -> CacheView {
        CacheView {
            levels: levels_view(self.levels@),
            kinds: kinds_view(self.kinds@),
            pending: crate::text::strings_view(self.pending@),
        }
    }
}

/// No key occurs twice.
pub open spec fn unique_keys<V>(s: Seq<(Seq<char>, V)>) -> bool {
    forall|i: int, j: int| 0 <= i < j < s.len() ==> (#[trigger] s[i]).0 != (#[trigger] s[j]).0
}

pub open spec fn unique(s: Seq<Seq<char>>) -> bool {
    forall|i: int, j: int| 0 <= i < j < s.len() ==> #[trigger] s[i] != #[trigger] s[j]
}

/// Position of `key` in a keyed table.
pub open spec fn key_pos<V>(s: Seq<(Seq<char>, V)>, key: Seq<char>) -> Option<int>
    decreases s.len(),
{
    if s.len() == 0 {
        None
    } else if s[0].0 == key {
        Some(0)
    } else {
        match key_pos(s.drop_first(), key) {
            Some(i) => Some(i + 1),
            None => None,
        }
    }
}

proof fn lemma_key_pos_found<V>(s: Seq<(Seq<char>, V)>, key: Seq<char>, i: int)
    requires
        0 <= i < s.len(),
        s[i].0 == key,
        forall|k: int| 0 <= k < i ==> (#[trigger] s[k]).0 != key,
    ensures
        key_pos(s, key) == Some(i),
    decreases i,
{
    if i > 0 {
        let t = s.drop_first();
        assert forall|k: int| 0 <= k < i - 1 implies (#[trigger] t[k]).0 != key by {
            assert(t[k] == s[k + 1]);
        }
        assert(s[0].0 != key);
        lemma_key_pos_found(t, key, i - 1);
    }
}

proof fn lemma_key_pos_none<V>(s: Seq<(Seq<char>, V)>, key: Seq<char>)
    requires
        forall|k: int| 0 <= k < s.len() ==> (#[trigger] s[k]).0 != key,
    ensures
        key_pos(s, key) == None::<int>,
    decreases s.len(),
{
    if s.len() > 0 {
        let t = s.drop_first();
        assert forall|k: int| 0 <= k < t.len() implies (#[trigger] t[k]).0 != key by {
            assert(t[k] == s[k + 1]);
        }
        assert(s[0].0 != key);
        lemma_key_pos_none(t, key);
    }
}

proof fn lemma_key_pos_props<V>(s: Seq<(Seq<char>, V)>, key: Seq<char>)
    ensures
        key_pos(s, key) matches Some(i) ==> 0 <= i < s.len() && s[i].0 == key,
        key_pos(s, key) is None ==> forall|k: int| 0 <= k < s.len() ==> (#[trigger] s[k]).0 != key,
    decreases s.len(),
{
    if s.len() > 0 {
        let t = s.drop_first();
        lemma_key_pos_props(t, key);
        if s[0].0 != key {
            assert forall|k: int| 1 <= k < s.len() implies s[k] == t[k - 1] by {}
        }
    }
}

/// The value stored under `key`.
pub open spec fn lookup<V>(s: Seq<(Seq<char>, V)>, key: Seq<char>) -> Option<V> {
    match key_pos(s, key) {
        Some(i) => Some(s[i].1),
        None => None,
    }
}

/// The table with `key` set to `value`: replaced in place, or appended.
pub open spec fn upsert<V>(s: Seq<(Seq<char>, V)>, key: Seq<char>, value: V) -> Seq<(Seq<char>, V)> {
    match key_pos(s, key) {
        Some(i) => s.update(i, (key, value)),
        None => s.push((key, value)),
    }
}

/// Listings compare by identity and display fields.
pub open spec fn same_items(a: Seq<ItemView>, b: Seq<ItemView>) -> bool {
    &&& a.len() == b.len()
    &&& forall|i: int|
        0 <= i < a.len() ==> {
            let x = #[trigger] a[i];
            let y = b[i];
            &&& x.rating_key == y.rating_key
            &&& x.title == y.title
            &&& x.year == y.year
            &&& x.poster == y.poster
            &&& x.media_type == y.media_type
            &&& x.index == y.index
            &&& x.parent_index == y.parent_index
        }
}

/// Position of the first of the oldest walks.
pub open spec fn oldest_pos(s: Seq<(Seq<char>, LevelView)>) -> int
    decreases s.len(),
{
    if s.len() <= 1 {
        0
    } else {
        let p = oldest_pos(s.drop_last());
        if s.last().1.walked_at_ms < s[p].1.walked_at_ms {
            s.len() - 1
        } else {
            p
        }
    }
}

/// The table with its `n` oldest walks evicted, oldest first.
pub open spec fn evicted(s: Seq<(Seq<char>, LevelView)>, n: nat) -> Seq<(Seq<char>, LevelView)>
    decreases n,
{
    if n == 0 || s.len() == 0 {
        s
    } else {
        evicted(s.remove(oldest_pos(s)), (n - 1) as nat)
    }
}

/// The levels after storing a walk.
pub open spec fn stored_levels(
    s: Seq<(Seq<char>, LevelView)>,
    dir: Seq<char>,
    items: Seq<ItemView>,
    now: u64,
) -> Seq<(Seq<char>, LevelView)> {
    let t = upsert(s, dir, LevelView { items, walked_at_ms: now });
    if t.len() > MAX_LEVELS {
        evicted(t, (t.len() - MAX_LEVELS) as nat)
    } else {
        t
    }
}

impl ListingCache {
    /// The cache's tables hold each key once and at most [`MAX_LEVELS`]
    /// levels.
    pub closed spec fn wf(&self) -> bool {
        &&& unique_keys(self@.levels)
        &&& unique_keys(self@.kinds)
        &&& unique(self@.pending)
        &&& self@.levels.len() <= MAX_LEVELS
    }

    /// An empty cache.
    pub fn new() -> (r: Self)
        ensures
            r.wf(),
            r@.levels.len() == 0,
            r@.kinds.len() == 0,
            r@.pending.len() == 0,
    {
        let r = ListingCache { levels: Vec::new(), kinds: Vec::new(), pending: Vec::new() };
        assert(levels_view(r.levels@) =~= Seq::empty());
        assert(kinds_view(r.kinds@) =~= Seq::empty());
        assert(crate::text::strings_view(r.pending@) =~= Seq::empty());
        r
    }

    fn level_position(&self, dir: &str) -> (r: Option<usize>)
        ensures
            opt_int(r) == key_pos(self@.levels, dir@),
            r matches Some(i) ==> i < self.levels.len(),
    {
        let ghost s = self@.levels;
        let mut i: usize = 0;
        while i < self.levels.len()
            invariant
                i <= self.levels.len(),
                s == levels_view(self.levels@),
                forall|k: int| 0 <= k < i ==> (#[trigger] s[k]).0 != dir@,
            decreases self.levels.len() - i,
        {
            assert(s[i as int].0 == self.levels@[i as int].0@);
            if str_eq(self.levels[i].0.as_str(), dir) {
                proof {
                    lemma_key_pos_found(s, dir@, i as int);
                }
                return Some(i);
            }
            i += 1;
        }
        proof {
            lemma_key_pos_none(s, dir@);
        }
        None
    }

    fn kind_position(&self, root: &str) -> (r: Option<usize>)
        ensures
            opt_int(r) == key_pos(self@.kinds, root@),
            r matches Some(i) ==> i < self.kinds.len(),
    {
        let ghost s = self@.kinds;
        let mut i: usize = 0;
        while i < self.kinds.len()
            invariant
                i <= self.kinds.len(),
                s == kinds_view(self.kinds@),
                forall|k: int| 0 <= k < i ==> (#[trigger] s[k]).0 != root@,
            decreases self.kinds.len() - i,
        {
            assert(s[i as int].0 == self.kinds@[i as int].0@);
            if str_eq(self.kinds[i].0.as_str(), root) {
                proof {
                    lemma_key_pos_found(s, root@, i as int);
                }
                return Some(i);
            }
            i += 1;
        }
        proof {
            lemma_key_pos_none(s, root@);
        }
        None
    }

    /// The cached listing of a level.
    pub fn level(&self, dir: &str) -> (r: Option<Vec<ItemDto>>)
        ensures
            match lookup(self@.levels, dir@) {
                Some(l) => r matches Some(v) && items_view(v@) == l.items,
                None => r is None,
            },
    {
        match self.level_position(dir) {
            Some(i) => {
                assert(self@.levels[i as int].1 == self.levels@[i as int].1@);
                Some(copy_items(&self.levels[i].1.items))
            },
            None => None,
        }
    }

    /// Store a freshly walked level, stamped `now_ms`. Returns whether the
    /// stored listing differs from what was cached before.
    pub fn store_level(&mut self, dir: &str, items: Vec<ItemDto>, now_ms: u64) -> (r: bool)
        requires
            old(self).wf(),
        ensures
            final(self).wf(),
            r == match lookup(old(self)@.levels, dir@) {
                Some(prev) => !same_items(prev.items, items_view(items@)),
                None => true,
            },
            final(self)@.levels == stored_levels(old(self)@.levels, dir@, items_view(items@), now_ms),
            final(self)@.kinds == old(self)@.kinds,
            final(self)@.pending == old(self)@.pending,
    {
        let ghost s = self@.levels;
        let ghost iv = items_view(items@);
        let pos = self.level_position(dir);
        let changed = match pos {
            Some(i) => {
                assert(s[i as int].1 == self.levels@[i as int].1@);
                !same_item_lists(&self.levels[i].1.items, &items)
            },
            None => true,
        };
        let snap = LevelSnapshot { items, walked_at_ms: now_ms };
        let ghost sv = snap@;
        match pos {
            Some(i) => {
                self.levels.remove(i);
                self.levels.insert(i, (dir.to_string(), snap));
                assert(self@.levels =~= s.update(i as int, (dir@, sv)));
                proof {
                    lemma_key_pos_props(s, dir@);
                    assert forall|a: int, b: int| 0 <= a < b < self@.levels.len() implies (#[trigger] self@.levels[a]).0
                        != (#[trigger] self@.levels[b]).0 by {
                        if a != i && b != i {
                            assert(self@.levels[a] == s[a] && self@.levels[b] == s[b]);
                        } else if a == i {
                            assert(self@.levels[b] == s[b]);
                        } else {
                            assert(self@.levels[a] == s[a]);
                        }
                    }
                }
            },
            None => {
                self.levels.push((dir.to_string(), snap));
                assert(self@.levels =~= s.push((dir@, sv)));
                proof {
                    lemma_key_pos_props(s, dir@);
                    assert forall|a: int, b: int| 0 <= a < b < self@.levels.len() implies (#[trigger] self@.levels[a]).0
                        != (#[trigger] self@.levels[b]).0 by {
                        if b < s.len() {
                            assert(self@.levels[a] == s[a] && self@.levels[b] == s[b]);
                        } else {
                            assert(self@.levels[a] == s[a]);
                        }
                    }
                }
            },
        }
        if self.levels.len() > MAX_LEVELS {
            let excess = self.levels.len() - MAX_LEVELS;
            self.evict_oldest(excess);
        }
        changed
    }

    /// Evict the `n` oldest walks, oldest first.
    fn evict_oldest(&mut self, n: usize)
        requires
            unique_keys(old(self)@.levels),
            n <= old(self)@.levels.len(),
        ensures
            final(self)@.levels == evicted(old(self)@.levels, n as nat),
            unique_keys(final(self)@.levels),
            final(self)@.levels.len() == old(self)@.levels.len() - n,
            final(self)@.kinds == old(self)@.kinds,
            final(self)@.pending == old(self)@.pending,
    {
        let mut k: usize = 0;
        let ghost s0 = self@.levels;
        while k < n
            invariant
                k <= n,
                n <= s0.len(),
                evicted(s0, n as nat) == evicted(self@.levels, (n - k) as nat),
                self@.levels.len() == s0.len() - k,
                unique_keys(self@.levels),
                self@.kinds == old(self)@.kinds,
                self@.pending == old(self)@.pending,
            decreases n - k,
        {
            let ghost s = self@.levels;
            let p = self.oldest_position();
            self.levels.remove(p);
            assert(self@.levels =~= s.remove(p as int));
            assert forall|a: int, b: int| 0 <= a < b < self@.levels.len() implies (#[trigger] self@.levels[a]).0
                != (#[trigger] self@.levels[b]).0 by {
                let a0 = if a < p { a } else { a + 1 };
                let b0 = if b < p { b } else { b + 1 };
                assert(self@.levels[a] == s[a0]);
                assert(self@.levels[b] == s[b0]);
            }
            k += 1;
        }
    }

    fn oldest_position(&self) -> (r: usize)
        requires
            self.levels.len() > 0,
        ensures
            r as int == oldest_pos(self@.levels),
            r < self.levels.len(),
    {
        let ghost s = self@.levels;
        let mut best: usize = 0;
        let mut i: usize = 1;
        proof {
            lemma_oldest_pos_bound(s.take(1));
        }
        assert(s.take(1).len() == 1);
        while i < self.levels.len()
            invariant
                1 <= i <= self.levels.len(),
                s == self@.levels,
                best < i,
                best as int == oldest_pos(s.take(i as int)),
            decreases self.levels.len() - i,
        {
            let ghost t = s.take(i + 1);
            assert(t.drop_last() =~= s.take(i as int));
            assert(t.last() == s[i as int]);
            proof {
                lemma_oldest_pos_bound(s.take(i as int));
            }
            assert(s.take(i as int)[best as int] == s[best as int]);
            assert(s[i as int].1.walked_at_ms == self.levels@[i as int].1.walked_at_ms);
            assert(s[best as int].1.walked_at_ms == self.levels@[best as int].1.walked_at_ms);
            if self.levels[i].1.walked_at_ms < self.levels[best].1.walked_at_ms {
                best = i;
            }
            i += 1;
        }
        assert(s.take(i as int) =~= s);
        best
    }

    /// The detected kind of a section root.
    pub fn kind(&self, root: &str) -> (r: Option<String>)
        ensures
            opt_view(r) == lookup(self@.kinds, root@),
    {
        match self.kind_position(root) {
            Some(i) => Some(self.kinds[i].1.clone()),
            None => None,
        }
    }

    /// Store a detected section kind. Returns whether it changed.
    pub fn store_kind(&mut self, root: &str, kind: &str) -> (r: bool)
        requires
            old(self).wf(),
        ensures
            final(self).wf(),
            r == (lookup(old(self)@.kinds, root@) != Some(kind@)),
            final(self)@.kinds == upsert(old(self)@.kinds, root@, kind@),
            final(self)@.levels == old(self)@.levels,
            final(self)@.pending == old(self)@.pending,
    {
        let ghost s = self@.kinds;
        proof {
            lemma_key_pos_props(s, root@);
        }
        match self.kind_position(root) {
            Some(i) => {
                let changed = !str_eq(self.kinds[i].1.as_str(), kind);
                self.kinds.remove(i);
                self.kinds.insert(i, (root.to_string(), kind.to_string()));
                assert(self@.kinds =~= s.update(i as int, (root@, kind@)));
                assert forall|a: int, b: int| 0 <= a < b < self@.kinds.len() implies (#[trigger] self@.kinds[a]).0
                    != (#[trigger] self@.kinds[b]).0 by {
                    if a != i && b != i {
                        assert(self@.kinds[a] == s[a] && self@.kinds[b] == s[b]);
                    } else if a == i {
                        assert(self@.kinds[b] == s[b]);
                    } else {
                        assert(self@.kinds[a] == s[a]);
                    }
                }
                changed
            },
            None => {
                self.kinds.push((root.to_string(), kind.to_string()));
                assert(self@.kinds =~= s.push((root@, kind@)));
                assert forall|a: int, b: int| 0 <= a < b < self@.kinds.len() implies (#[trigger] self@.kinds[a]).0
                    != (#[trigger] self@.kinds[b]).0 by {
                    if b < s.len() {
                        assert(self@.kinds[a] == s[a] && self@.kinds[b] == s[b]);
                    } else {
                        assert(self@.kinds[a] == s[a]);
                    }
                }
                true
            },
        }
    }

    /// Claim the background revalidation slot for `key`; false when one is
    /// already in flight.
    pub fn begin_revalidate(&mut self, key: &str) -> (r: bool)
        requires
            old(self).wf(),
        ensures
            final(self).wf(),
            r == !old(self)@.pending.contains(key@),
            final(self)@.pending.to_set() == old(self)@.pending.to_set().insert(key@),
            final(self)@.levels == old(self)@.levels,
            final(self)@.kinds == old(self)@.kinds,
    {
        let ghost s = self@.pending;
        let mut i: usize = 0;
        while i < self.pending.len()
            invariant
                i <= self.pending.len(),
                s == crate::text::strings_view(self.pending@),
                forall|k: int| 0 <= k < i ==> s[k] != key@,
                self == old(self),
                self.wf(),
            decreases self.pending.len() - i,
        {
            assert(s[i as int] == self.pending@[i as int]@);
            if str_eq(self.pending[i].as_str(), key) {
                assert(s.to_set() =~= s.to_set().insert(key@));
                return false;
            }
            i += 1;
        }
        self.pending.push(key.to_string());
        assert(self@.pending =~= s.push(key@));
        proof {
            s.lemma_push_to_set_commute(key@);
        }
        assert forall|a: int, b: int| 0 <= a < b < self@.pending.len() implies #[trigger] self@.pending[a]
            != #[trigger] self@.pending[b] by {
            if b < s.len() {
                assert(self@.pending[a] == s[a] && self@.pending[b] == s[b]);
            } else {
                assert(self@.pending[a] == s[a]);
            }
        }
        true
    }

    /// Release the revalidation slot for `key`.
    pub fn finish_revalidate(&mut self, key: &str)
        requires
            old(self).wf(),
        ensures
            final(self).wf(),
            final(self)@.pending == old(self)@.pending.filter(|k: Seq<char>| k != key@),
            final(self)@.levels == old(self)@.levels,
            final(self)@.kinds == old(self)@.kinds,
    {
        let ghost s = self@.pending;
        let ghost pk = |k: Seq<char>| k != key@;
        let mut kept: Vec<String> = Vec::new();
        let mut i: usize = 0;
        while i < self.pending.len()
            invariant
                i <= self.pending.len(),
                s == crate::text::strings_view(self.pending@),
                pk == (|k: Seq<char>| k != key@),
                crate::text::strings_view(kept@) == s.take(i as int).filter(pk),
            decreases self.pending.len() - i,
        {
            proof {
                crate::seqs::lemma_filter_take_step(s, pk, i as int);
            }
            assert(s[i as int] == self.pending@[i as int]@);
            if !str_eq(self.pending[i].as_str(), key) {
                let ghost b = kept@;
                kept.push(self.pending[i].clone());
                assert(crate::text::strings_view(kept@) =~= crate::text::strings_view(b).push(
                    s[i as int],
                ));
            }
            i += 1;
        }
        assert(s.take(i as int) =~= s);
        self.pending = kept;
        proof {
            let f = s.filter(pk);
            assert forall|a: int, b: int| 0 <= a < b < f.len() implies #[trigger] f[a] != #[trigger] f[b] by {
                lemma_filter_unique(s, pk, a, b);
            }
        }
    }
}

proof fn lemma_filter_unique(s: Seq<Seq<char>>, p: spec_fn(Seq<char>) -> bool, a: int, b: int)
    requires
        unique(s),
        0 <= a < b < s.filter(p).len(),
    ensures
        s.filter(p)[a] != s.filter(p)[b],
    decreases s.len(),
{
    reveal_with_fuel(Seq::filter, 1);
    let t = s.drop_last();
    assert forall|x: int, y: int| 0 <= x < y < t.len() implies #[trigger] t[x] != #[trigger] t[y] by {
        assert(t[x] == s[x] && t[y] == s[y]);
    }
    let tf = t.filter(p);
    if p(s.last()) && b == tf.len() {
        assert(s.filter(p)[a] == tf[a]);
        t.lemma_filter_contains_rev(p, tf[a]);
        assert(tf.contains(tf[a]));
        let m = choose|m: int| 0 <= m < t.len() && t[m] == tf[a];
        assert(s[m] == t[m]);
        assert(s[s.len() - 1] == s.last());
    } else {
        lemma_filter_unique(t, p, a, b);
        if p(s.last()) {
            assert(s.filter(p)[a] == tf[a]);
            assert(s.filter(p)[b] == tf[b]);
        }
    }
}

proof fn lemma_oldest_pos_bound(s: Seq<(Seq<char>, LevelView)>)
    requires
        s.len() > 0,
    ensures
        0 <= oldest_pos(s) < s.len(),
    decreases s.len(),
{
    if s.len() > 1 {
        lemma_oldest_pos_bound(s.drop_last());
    }
}

fn copy_items(v: &Vec<ItemDto>) -> (r: Vec<ItemDto>)
    ensures
        items_view(r@) == items_view(v@),
{
    let mut r: Vec<ItemDto> = Vec::new();
    let mut i: usize = 0;
    while i < v.len()
        invariant
            i <= v.len(),
            items_view(r@) == items_view(v@).take(i as int),
        decreases v.len() - i,
    {
        let ghost b = r@;
        r.push(v[i].duplicate());
        assert(items_view(r@) =~= items_view(b).push(v@[i as int]@));
        assert(items_view(v@).take(i + 1) =~= items_view(v@).take(i as int).push(v@[i as int]@));
        i += 1;
    }
    assert(items_view(v@).take(i as int) =~= items_view(v@));
    r
}

fn opt_string_eq(a: &Option<String>, b: &Option<String>) -> (r: bool)
    ensures
        r == (opt_view(*a) == opt_view(*b)),
{
    match (a, b) {
        (Some(x), Some(y)) => str_eq(x.as_str(), y.as_str()),
        (None, None) => true,
        _ => false,
    }
}

fn same_item_lists(a: &Vec<ItemDto>, b: &Vec<ItemDto>) -> (r: bool)
    ensures
        r == same_items(items_view(a@), items_view(b@)),
{
    if a.len() != b.len() {
        return false;
    }
    let ghost x = items_view(a@);
    let ghost y = items_view(b@);
    let mut i: usize = 0;
    while i < a.len()
        invariant
            i <= a.len(),
            a.len() == b.len(),
            x == items_view(a@),
            y == items_view(b@),
            forall|k: int|
                0 <= k < i ==> {
                    let p = #[trigger] x[k];
                    let q = y[k];
                    &&& p.rating_key == q.rating_key
                    &&& p.title == q.title
                    &&& p.year == q.year
                    &&& p.poster == q.poster
                    &&& p.media_type == q.media_type
                    &&& p.index == q.index
                    &&& p.parent_index == q.parent_index
                },
        decreases a.len() - i,
    {
        let p = &a[i];
        let q = &b[i];
        assert(x[i as int] == p@ && y[i as int] == q@);
        let same = str_eq(p.rating_key.as_str(), q.rating_key.as_str()) && str_eq(
            p.title.as_str(),
            q.title.as_str(),
        ) && p.year == q.year && opt_string_eq(&p.poster, &q.poster) && opt_string_eq(
            &p.media_type,
            &q.media_type,
        ) && p.index == q.index && p.parent_index == q.parent_index;
        if !same {
            return false;
        }
        i += 1;
    }
    true
}

// ---- laws ---------------------------------------------------------------------

/// A stored walk is what the level reads back, whenever storing it evicts
/// nothing (the level was cached already, or there was room).
pub proof fn law_store_then_read(
    s: Seq<(Seq<char>, LevelView)>,
    dir: Seq<char>,
    items: Seq<ItemView>,
    now: u64,
)
    requires
        unique_keys(s),
        s.len() < MAX_LEVELS || (s.len() == MAX_LEVELS && key_pos(s, dir) is Some),
    ensures
        lookup(stored_levels(s, dir, items, now), dir) == Some(
            LevelView { items, walked_at_ms: now },
        ),
{
    lemma_key_pos_props(s, dir);
    let v = LevelView { items, walked_at_ms: now };
    let t = upsert(s, dir, v);
    match key_pos(s, dir) {
        Some(i) => {
            assert forall|k: int| 0 <= k < i implies (#[trigger] t[k]).0 != dir by {
                assert(t[k] == s[k]);
            }
            lemma_key_pos_found(t, dir, i);
        },
        None => {
            assert forall|k: int| 0 <= k < s.len() implies (#[trigger] t[k]).0 != dir by {
                assert(t[k] == s[k]);
            }
            lemma_key_pos_found(t, dir, s.len() as int);
        },
    }
}

} // verus!
