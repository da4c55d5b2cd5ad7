//! Best-effort `/proc` visibility: the poll interval, process lifecycle
//! tokens, the bounded cache of observed descriptor targets, and the choice
//! of which observed descriptors are reported. Observation only, never
//! enforcement.
use vstd::prelude::*;
use crate::text::{
    all_digits, chars_eq, chars_of, opt_chars, chars_starts_with, digits_value, fields, parse_u64,
    parse_unsigned, rfind_chars, rfind_spec, seqs_of, split_chars, split_on, split_whitespace,
    starts_with, string_of, sub_chars, trim, trim_ws,
};

verus! {

pub const POLL_INTERVAL_MS: u64 = 50;
pub const ACTIVE_POLL_INTERVAL_MS: u64 = 50;
pub const IDLE_POLL_INTERVAL_MS: u64 = 500;
pub const LONG_IDLE_POLL_INTERVAL_MS: u64 = 2_000;
pub const IDLE_AFTER_MS: u64 = 5_000;
pub const LONG_IDLE_AFTER_MS: u64 = 30_000;
pub const MAX_PATH_CACHE_ENTRIES: usize = 10_000;
/// Most descriptors reported for one process in one scan.
pub const MAX_EVENTS_PER_TICK: usize = 200;

/// A pid together with the kernel's start time of that process, so that a
/// reused pid is never taken for the process that had it before.
#[derive(Debug, Clone, Copy, Hash, PartialEq, Eq, Structural)]
pub struct LifecycleToken {
    pub pid: u32,
    pub start_time: u64,
}

/// One descriptor of one process incarnation.
#[derive(Debug, Clone, Copy, Hash, PartialEq, Eq, Structural)]
pub struct InvalidationToken {
    pub process: LifecycleToken,
    pub fd: i32,
}

/// Cache contents, least recently observed first.
pub type CacheView = Seq<(InvalidationToken, Seq<char>)>;

/// Bounded LRU cache of observed `/proc/<pid>/fd/<n>` targets.
///
/// The process start time is part of every key, so pid reuse cannot inherit
/// a prior process's path observations. Entries are kept from least to most
/// recently observed; observing past the capacity evicts the least recently
/// observed entry.
pub struct PathCache {
    capacity: usize,
    entries: Vec<(InvalidationToken, String)>,
}

/// The entries of `v` whose token is not `t`, in order.
pub open spec fn without_token(v: CacheView, t: InvalidationToken) -> CacheView
    decreases v.len(),
{
    if v.len() == 0 {
        v
    } else {
        let r = without_token(v.drop_last(), t);
        if v.last().0 == t {
            r
        } else {
            r.push(v.last())
        }
    }
}

/// The entries of `v` that belong to another process than `p`, in order.
pub open spec fn without_process(v: CacheView, p: LifecycleToken) -> CacheView
    decreases v.len(),
{
    if v.len() == 0 {
        v
    } else {
        let r = without_process(v.drop_last(), p);
        if v.last().0.process == p {
            r
        } else {
            r.push(v.last())
        }
    }
}

/// Whether some entry of `v` has token `t`.
pub open spec fn has_token(v: CacheView, t: InvalidationToken) -> bool {
    exists|i: int| 0 <= i < v.len() && (#[trigger] v[i]).0 == t
}

/// No two entries share a token.
pub open spec fn tokens_distinct(v: CacheView) -> bool {
    forall|i: int, j: int|
        0 <= i < v.len() && 0 <= j < v.len() && i != j ==> (#[trigger] v[i]).0 != (
        #[trigger] v[j]).0
}

/// The cache after observing `path` for `t`: the entry moves (or comes) to
/// the most recent end with the new path, and the least recent entry leaves
/// when that goes past the capacity.
pub open spec fn observe_view(cap: nat, v: CacheView, t: InvalidationToken, path: Seq<char>) -> CacheView {
    let pushed = without_token(v, t).push((t, path));
    if pushed.len() > cap {
        pushed.drop_first()
    } else {
        pushed
    }
}

/// Capacity a cache gets when asked for `requested` entries.
pub open spec fn clamp_capacity(requested: usize) -> nat {
    if requested < 1 {
        1
    } else if requested > MAX_PATH_CACHE_ENTRIES {
        MAX_PATH_CACHE_ENTRIES as nat
    } else {
        requested as nat
    }
}

proof fn lemma_without_absent(v: CacheView, t: InvalidationToken)
    requires
        !has_token(v, t),
    ensures
        without_token(v, t) == v,
    decreases v.len(),
{
    if v.len() > 0 {
        let h = v.drop_last();
        assert(!has_token(h, t)) by {
            if has_token(h, t) {
                let i = choose|i: int| 0 <= i < h.len() && (#[trigger] h[i]).0 == t;
                assert(v[i] == h[i]);
            }
        }
        lemma_without_absent(h, t);
        assert(v[v.len() - 1] == v.last());
        assert(h.push(v.last()) =~= v);
    }
}

proof fn lemma_without_at(v: CacheView, t: InvalidationToken, k: int)
    requires
        tokens_distinct(v),
        0 <= k < v.len(),
        v[k].0 == t,
    ensures
        without_token(v, t) == v.remove(k),
    decreases v.len(),
{
    let h = v.drop_last();
    if k == v.len() - 1 {
        assert(!has_token(h, t)) by {
            if has_token(h, t) {
                let i = choose|i: int| 0 <= i < h.len() && (#[trigger] h[i]).0 == t;
                assert(v[i] == h[i]);
            }
        }
        lemma_without_absent(h, t);
        assert(v.remove(k) =~= h);
    } else {
        assert(tokens_distinct(h)) by {
            assert forall|i: int, j: int|
                0 <= i < h.len() && 0 <= j < h.len() && i != j implies (#[trigger] h[i]).0 != (
                #[trigger] h[j]).0 by {
                assert(h[i] == v[i] && h[j] == v[j]);
            }
        }
        assert(h[k] == v[k]);
        lemma_without_at(h, t, k);
        assert(v.last() == v[v.len() - 1]);
        assert(v.last().0 != t);
        assert(h.remove(k).push(v.last()) =~= v.remove(k));
    }
}

proof fn lemma_without_process_len(v: CacheView, p: LifecycleToken)
    ensures
        without_process(v, p).len() <= v.len(),
        forall|i: int|
            0 <= i < without_process(v, p).len() ==> (#[trigger] without_process(v, p)[i]).0.process
                != p && v.contains(without_process(v, p)[i]),
    decreases v.len(),
{
    if v.len() > 0 {
        let h = v.drop_last();
        lemma_without_process_len(h, p);
        let r = without_process(h, p);
        assert forall|i: int| 0 <= i < without_process(v, p).len() implies (
        #[trigger] without_process(v, p)[i]).0.process != p && v.contains(
            without_process(v, p)[i],
        ) by {
            if i < r.len() {
                assert(without_process(v, p)[i] == r[i]);
                assert(h.contains(r[i]));
                let j = choose|j: int| 0 <= j < h.len() && h[j] == r[i];
                assert(v[j] == h[j]);
            } else {
                assert(v[v.len() - 1] == v.last());
            }
        }
    }
}

impl View for PathCache {
    type V = CacheView;

    closed spec fn view(&self) -> CacheView {
        self.entries@.map_values(|e: (InvalidationToken, String)| (e.0, e.1@))
    }
}

impl PathCache {
    /// The capacity, as a number.
    pub closed spec fn capacity_view(&self) -> nat {
        self.capacity as nat
    }

    /// The cache's invariant: a capacity between 1 and the global bound, no
    /// more entries than the capacity, no token twice.
    pub closed spec fn wf(&self) -> bool {
        &&& 1 <= self.capacity <= MAX_PATH_CACHE_ENTRIES
        &&& self.entries@.len() <= self.capacity
        &&& tokens_distinct(self@)
    }

    /// An empty cache whose capacity is `capacity` clamped to
    /// `1..=MAX_PATH_CACHE_ENTRIES`.
    pub fn new(capacity: usize) -> (c: Self)
        ensures
            c.wf(),
            c@ == Seq::<(InvalidationToken, Seq<char>)>::empty(),
            c.capacity_view() == clamp_capacity(capacity),
    {
        let cap = if capacity < 1 {
            1
        } else if capacity > MAX_PATH_CACHE_ENTRIES {
            MAX_PATH_CACHE_ENTRIES
        } else {
            capacity
        };
        let c = PathCache { capacity: cap, entries: Vec::new() };
        assert(c@ =~= Seq::<(InvalidationToken, Seq<char>)>::empty());
        c
    }

    /// Number of cached targets.
    pub fn len(&self) -> (n: usize)
        ensures
            n == self@.len(),
    {
        self.entries.len()
    }

    /// Whether nothing is cached.
    pub fn is_empty(&self) -> (b: bool)
        ensures
            b == (self@.len() == 0),
    {
        self.entries.len() == 0
    }

    /// The capacity.
    pub fn capacity(&self) -> (n: usize)
        ensures
            n == self.capacity_view(),
    {
        self.capacity
    }

    /// Length of the recency order, which holds each cached entry once.
    pub fn lru_len(&self) -> (n: usize)
        ensures
            n == self@.len(),
    {
        self.entries.len()
    }

    /// Whether a target is cached for `token`.
    pub fn contains(&self, token: InvalidationToken) -> (b: bool)
        ensures
            b == has_token(self@, token),
    {
        let ghost v = self@;
        let mut k: usize = 0;
        while k < self.entries.len()
            invariant
                k <= self.entries.len(),
                v == self@,
                forall|j: int| 0 <= j < k ==> v[j].0 != token,
            decreases self.entries.len() - k,
        {
            if self.entries[k].0 == token {
                assert(v[k as int].0 == token);
                return true;
            }
            k += 1;
        }
        false
    }

    fn find(&self, token: InvalidationToken) -> (r: Option<usize>)
        ensures
            match r {
                Some(k) => k < self@.len() && self@[k as int].0 == token,
                None => !has_token(self@, token),
            },
    {
        let ghost v = self@;
        let mut k: usize = 0;
        while k < self.entries.len()
            invariant
                k <= self.entries.len(),
                v == self@,
                forall|j: int| 0 <= j < k ==> v[j].0 != token,
            decreases self.entries.len() - k,
        {
            if self.entries[k].0 == token {
                return Some(k);
            }
            k += 1;
        }
        None
    }

    /// Records `path` as the target of `token`; true when the cache did not
    /// already hold exactly this target for this token.
    pub fn observe(&mut self, token: InvalidationToken, path: &str) -> (changed: bool)
        requires
            old(self).wf(),
        ensures
            final(self).wf(),
            final(self).capacity_view() == old(self).capacity_view(),
            changed == !old(self)@.contains((token, path@)),
            final(self)@ == observe_view(old(self).capacity_view(), old(self)@, token, path@),
    {
        let ghost v = self@;
        let pc = chars_of(path);
        let found = self.find(token);
        let changed = match found {
            Some(k) => {
                let cur = chars_of(self.entries[k].1.as_str());
                let same = chars_eq(cur.as_slice(), pc.as_slice());
                proof {
                    lemma_without_at(v, token, k as int);
                    if v.contains((token, path@)) {
                        let j = choose|j: int| 0 <= j < v.len() && v[j] == (token, path@);
                        assert(j == k);
                    }
                }
                self.entries.remove(k);
                !same
            },
            None => {
                proof {
                    lemma_without_absent(v, token);
                    if v.contains((token, path@)) {
                        let j = choose|j: int| 0 <= j < v.len() && v[j] == (token, path@);
                        assert(v[j].0 == token);
                    }
                }
                true
            },
        };
        let ghost mid = self@;
        assert(mid =~= without_token(v, token));
        self.entries.push((token, string_of(pc.as_slice())));
        let ghost pushed = self@;
        assert(pushed =~= mid.push((token, path@)));
        if self.entries.len() > self.capacity {
            self.entries.remove(0);
            assert(self@ =~= pushed.drop_first());
        }
        proof {
            let w = self@;
            assert forall|i: int, j: int|
                0 <= i < w.len() && 0 <= j < w.len() && i != j implies (#[trigger] w[i]).0 != (
                #[trigger] w[j]).0 by {
                let off: int = pushed.len() - w.len();
                let a = i + off;
                let b = j + off;
                assert(w[i] == pushed[a] && w[j] == pushed[b]);
                if a < mid.len() && b < mid.len() {
                    match found {
                        Some(k) => {
                            let ka = if a < k {
                                a
                            } else {
                                a + 1
                            };
                            let kb = if b < k {
                                b
                            } else {
                                b + 1
                            };
                            assert(mid[a] == v[ka] && mid[b] == v[kb]);
                        },
                        None => {},
                    }
                } else if a == mid.len() {
                    match found {
                        Some(k) => {
                            let kb = if b < k {
                                b
                            } else {
                                b + 1
                            };
                            assert(mid[b] == v[kb]);
                            assert(kb != k);
                        },
                        None => {
                            assert(mid[b] == v[b]);
                        },
                    }
                } else {
                    match found {
                        Some(k) => {
                            let ka = if a < k {
                                a
                            } else {
                                a + 1
                            };
                            assert(mid[a] == v[ka]);
                            assert(ka != k);
                        },
                        None => {
                            assert(mid[a] == v[a]);
                        },
                    }
                }
            }
        }
        changed
    }

    /// Forgets the target cached for `token`.
    pub fn invalidate(&mut self, token: InvalidationToken)
        requires
            old(self).wf(),
        ensures
            final(self).wf(),
            final(self).capacity_view() == old(self).capacity_view(),
            final(self)@ == without_token(old(self)@, token),
    {
        let ghost v = self@;
        match self.find(token) {
            Some(k) => {
                proof {
                    lemma_without_at(v, token, k as int);
                }
                self.entries.remove(k);
                assert(self@ =~= v.remove(k as int));
                proof {
                    let w = self@;
                    assert forall|i: int, j: int|
                        0 <= i < w.len() && 0 <= j < w.len() && i != j implies (
                        #[trigger] w[i]).0 != (#[trigger] w[j]).0 by {
                        let ka = if i < k {
                            i
                        } else {
                            i + 1
                        };
                        let kb = if j < k {
                            j
                        } else {
                            j + 1
                        };
                        assert(w[i] == v[ka] && w[j] == v[kb]);
                    }
                }
            },
            None => {
                proof {
                    lemma_without_absent(v, token);
                }
            },
        }
    }

    /// Forgets every target cached for the process incarnation `process`.
    pub fn invalidate_process(&mut self, process: LifecycleToken)
        requires
            old(self).wf(),
        ensures
            final(self).wf(),
            final(self).capacity_view() == old(self).capacity_view(),
            final(self)@ == without_process(old(self)@, process),
    {
        let ghost v = self@;
        let mut kept: Vec<(InvalidationToken, String)> = Vec::new();
        let mut i: usize = 0;
        while i < self.entries.len()
            invariant
                i <= self.entries.len(),
                v == self@,
                kept@.map_values(|e: (InvalidationToken, String)| (e.0, e.1@)) == without_process(
                    v.take(i as int),
                    process,
                ),
            decreases self.entries.len() - i,
        {
            assert(v.take(i + 1).drop_last() =~= v.take(i as int));
            assert(v.take(i + 1).last() == v[i as int]);
            if self.entries[i].0.process != process {
                let e = (self.entries[i].0, self.entries[i].1.clone());
                kept.push(e);
                assert(kept@.map_values(|e: (InvalidationToken, String)| (e.0, e.1@)) =~= without_process(
                    v.take(i as int),
                    process,
                ).push(v[i as int]));
            }
            i += 1;
        }
        assert(v.take(v.len() as int) =~= v);
        self.entries = kept;
        proof {
            lemma_without_process_len(v, process);
            let w = self@;
            assert forall|a: int, b: int|
                0 <= a < w.len() && 0 <= b < w.len() && a != b implies (#[trigger] w[a]).0 != (
                #[trigger] w[b]).0 by {
                lemma_without_process_distinct(v, process);
            }
        }
    }

    /// Forgets everything.
    pub fn clear(&mut self)
        requires
            old(self).wf(),
        ensures
            final(self).wf(),
            final(self).capacity_view() == old(self).capacity_view(),
            final(self)@ == Seq::<(InvalidationToken, Seq<char>)>::empty(),
    {
        self.entries = Vec::new();
        assert(self@ =~= Seq::<(InvalidationToken, Seq<char>)>::empty());
    }
}

proof fn lemma_without_process_distinct(v: CacheView, p: LifecycleToken)
    requires
        tokens_distinct(v),
    ensures
        tokens_distinct(without_process(v, p)),
    decreases v.len(),
{
    if v.len() > 0 {
        let h = v.drop_last();
        assert(tokens_distinct(h)) by {
            assert forall|i: int, j: int|
                0 <= i < h.len() && 0 <= j < h.len() && i != j implies (#[trigger] h[i]).0 != (
                #[trigger] h[j]).0 by {
                assert(h[i] == v[i] && h[j] == v[j]);
            }
        }
        lemma_without_process_distinct(h, p);
        lemma_without_process_len(h, p);
        let r = without_process(h, p);
        if v.last().0.process != p {
            let w = r.push(v.last());
            assert forall|i: int, j: int|
                0 <= i < w.len() && 0 <= j < w.len() && i != j implies (#[trigger] w[i]).0 != (
                #[trigger] w[j]).0 by {
                if i == r.len() || j == r.len() {
                    let o = if i == r.len() {
                        j
                    } else {
                        i
                    };
                    assert(h.contains(r[o]));
                    let q = choose|q: int| 0 <= q < h.len() && h[q] == r[o];
                    assert(v[q] == h[q]);
                    assert(v[v.len() - 1] == v.last());
                }
            }
        }
    }
}


impl Default for PathCache {
    fn default() -> (c: Self)
        ensures
            c.wf(),
            c@ == Seq::<(InvalidationToken, Seq<char>)>::empty(),
            c.capacity_view() == MAX_PATH_CACHE_ENTRIES as nat,
    {
        PathCache::new(MAX_PATH_CACHE_ENTRIES)
    }
}

/// Observing a target leaves it cached, so observing the same target again
/// right after reports no change.
pub proof fn lemma_observe_then_cached(cap: nat, v: CacheView, t: InvalidationToken, path: Seq<char>)
    requires
        cap >= 1,
    ensures
        observe_view(cap, v, t, path).contains((t, path)),
{
    let pushed = without_token(v, t).push((t, path));
    let w = observe_view(cap, v, t, path);
    assert(w[w.len() - 1] == pushed[pushed.len() - 1]);
}

/// Observing is least-recently-used caching. The entries run from least
/// to most recently observed. A token already cached moves to the most
/// recent end with the new path, and nothing else changes. A new token is
/// added at that end; when the cache was full, exactly the least recently
/// observed entry leaves, and every other entry stays, in order.
pub proof fn lemma_observe_is_lru(cap: nat, v: CacheView, t: InvalidationToken, path: Seq<char>)
    requires
        cap >= 1,
        v.len() <= cap,
        tokens_distinct(v),
    ensures
        forall|k: int| 0 <= k < v.len() && v[k].0 == t ==> observe_view(cap, v, t, path) == v.remove(k).push((t, path)),
        !has_token(v, t) && v.len() < cap ==> observe_view(cap, v, t, path) == v.push((t, path)),
        !has_token(v, t) && v.len() == cap ==> observe_view(cap, v, t, path) == v.drop_first().push((t, path)),
        observe_view(cap, v, t, path).len() <= cap,
{
    if has_token(v, t) {
        let k = choose|k: int| 0 <= k < v.len() && (#[trigger] v[k]).0 == t;
        lemma_without_at(v, t, k);
        assert forall|j: int| 0 <= j < v.len() && v[j].0 == t implies observe_view(cap, v, t, path) == v.remove(j).push((t, path)) by {
            assert(j == k);
        }
    } else {
        lemma_without_absent(v, t);
        if v.len() == cap {
            assert(v.push((t, path)).drop_first() =~= v.drop_first().push((t, path)));
        }
    }
}

/// Invalidating a descriptor forgets it, and invalidating a process
/// forgets every descriptor of that incarnation and nothing of any other.
pub proof fn lemma_invalidation_forgets(v: CacheView, t: InvalidationToken, p: LifecycleToken)
    ensures
        !has_token(without_token(v, t), t),
        forall|i: int|
            0 <= i < without_process(v, p).len() ==> (#[trigger] without_process(v, p)[i]).0.process
                != p,
        forall|e: (InvalidationToken, Seq<char>)|
            v.contains(e) && e.0.process != p ==> #[trigger] without_process(v, p).contains(e),
    decreases v.len(),
{
    lemma_without_process_len(v, p);
    lemma_without_token_forgets(v, t);
    if v.len() > 0 {
        let h = v.drop_last();
        lemma_invalidation_forgets(h, t, p);
        let r = without_process(h, p);
        assert forall|e: (InvalidationToken, Seq<char>)|
            v.contains(e) && e.0.process != p implies #[trigger] without_process(v, p).contains(
            e,
        ) by {
            let j = choose|j: int| 0 <= j < v.len() && v[j] == e;
            if j < v.len() - 1 {
                assert(h[j] == e);
                assert(h.contains(e));
                assert(without_process(h, p).contains(e));
                let q = choose|q: int| 0 <= q < r.len() && r[q] == e;
                if v.last().0.process != p {
                    assert(r.push(v.last())[q] == e);
                }
            } else {
                assert(v.last() == e);
                assert(r.push(v.last())[r.len() as int] == e);
            }
        }
    }
}

proof fn lemma_without_token_forgets(v: CacheView, t: InvalidationToken)
    ensures
        !has_token(without_token(v, t), t),
    decreases v.len(),
{
    if v.len() > 0 {
        let h = v.drop_last();
        lemma_without_token_forgets(h, t);
        let r = without_token(h, t);
        if v.last().0 != t {
            if has_token(r.push(v.last()), t) {
                let i = choose|i: int| 0 <= i < r.len() + 1 && (#[trigger] r.push(v.last())[i]).0 == t;
                assert(r.push(v.last())[i] == r[i]);
            }
        }
    }
}

/// The poll interval for `idle_ms` milliseconds without activity.
pub open spec fn interval_spec(idle_ms: u64) -> u64 {
    if idle_ms >= LONG_IDLE_AFTER_MS {
        LONG_IDLE_POLL_INTERVAL_MS
    } else if idle_ms >= IDLE_AFTER_MS {
        IDLE_POLL_INTERVAL_MS
    } else {
        ACTIVE_POLL_INTERVAL_MS
    }
}

/// Poll interval selected from the time since the last observed activity:
/// fast while active, slower after five seconds, slowest after thirty.
pub fn poll_interval_ms(idle_ms: u64) -> (r: u64)
    ensures
        r == interval_spec(idle_ms),
{
    if idle_ms >= LONG_IDLE_AFTER_MS {
        LONG_IDLE_POLL_INTERVAL_MS
    } else if idle_ms >= IDLE_AFTER_MS {
        IDLE_POLL_INTERVAL_MS
    } else {
        ACTIVE_POLL_INTERVAL_MS
    }
}

/// The poller never speeds up as idleness grows.
pub proof fn lemma_poll_interval_monotone(a: u64, b: u64)
    requires
        a <= b,
    ensures
        interval_spec(a) <= interval_spec(b),
{
}

/// The start time named by a `/proc/<pid>/stat` body: field 22, counted
/// after the last `") "` that closes the command name.
pub open spec fn start_time_spec(stat: Seq<char>) -> Option<u64> {
    match rfind_spec(stat, seq![')', ' ']) {
        None => None,
        Some(k) => {
            let f = fields(stat.skip(k + 2));
            if f.len() > 19 {
                match parse_unsigned(f[19], u64::MAX as int) {
                    Some(v) => Some(v as u64),
                    None => None,
                }
            } else {
                None
            }
        },
    }
}

/// Reads the kernel-assigned process start time from a stat body.
pub fn start_time_from_stat(stat: &str) -> (r: Option<u64>)
    ensures
        r == start_time_spec(stat@),
{
    let cs = chars_of(stat);
    let close = vec![')', ' '];
    assert(close@ =~= seq![')', ' ']);
    let end = match rfind_chars(cs.as_slice(), close.as_slice()) {
        Some(k) => k,
        None => return None,
    };
    let rest = sub_chars(cs.as_slice(), end + 2, cs.len());
    assert(rest@ =~= stat@.skip(end + 2));
    let f = split_whitespace(rest.as_slice());
    if f.len() <= 19 {
        return None;
    }
    assert(seqs_of(f@)[19] == f@[19]@);
    parse_u64(f[19].as_slice())
}

/// The lifecycle token of `pid`, from the body of its stat file (`None`
/// where the file could not be read or names no start time).
pub fn lifecycle_token(pid: u32, stat: Option<&str>) -> (r: Option<LifecycleToken>)
    ensures
        r == match stat {
            None => None,
            Some(t) => match start_time_spec(t@) {
                Some(st) => Some(LifecycleToken { pid: pid, start_time: st }),
                None => None,
            },
        },
{
    match stat {
        None => None,
        Some(t) => match start_time_from_stat(t) {
            Some(st) => Some(LifecycleToken { pid, start_time: st }),
            None => None,
        },
    }
}

/// How a descriptor was opened.
#[derive(Debug, Clone, Copy, PartialEq, Eq, Structural)]
pub enum FileAccess {
    Read,
    Write,
    Unknown,
}

/// The text after `key` on the first line that starts with `key`.
pub open spec fn line_field(lines: Seq<Seq<char>>, key: Seq<char>) -> Option<Seq<char>>
    decreases lines.len(),
{
    if lines.len() == 0 {
        None
    } else if starts_with(lines[0], key) {
        Some(lines[0].skip(key.len() as int))
    } else {
        line_field(lines.drop_first(), key)
    }
}

/// An octal digit.
pub open spec fn is_octal(c: char) -> bool {
    '0' <= c <= '7'
}

/// The value of the octal digit string `s`.
pub open spec fn octal_value(s: Seq<char>) -> int
    decreases s.len(),
{
    if s.len() == 0 {
        0
    } else {
        octal_value(s.drop_last()) * 8 + (s.last() as int - '0' as int)
    }
}

/// The digits of an octal number as `from_str_radix` accepts it: an
/// optional `+`.
pub open spec fn octal_digits(s: Seq<char>) -> Seq<char> {
    if s.len() > 0 && s[0] == '+' {
        s.drop_first()
    } else {
        s
    }
}

/// Every character of `d` is an octal digit.
pub open spec fn all_octal(d: Seq<char>) -> bool {
    forall|i: int| 0 <= i < d.len() ==> is_octal(#[trigger] d[i])
}

/// `s` parsed as an octal number no larger than `max`, as
/// `u32::from_str_radix(s, 8)` does it: an optional `+`, then digits.
pub open spec fn parse_octal(s: Seq<char>, max: int) -> Option<int> {
    let d = octal_digits(s);
    if d.len() > 0 && all_octal(d) && octal_value(d) <= max {
        Some(octal_value(d))
    } else {
        None
    }
}

proof fn lemma_octal_prefix(d: Seq<char>, n: int)
    requires
        0 <= n <= d.len(),
        all_octal(d),
    ensures
        0 <= octal_value(d.take(n)) <= octal_value(d),
    decreases d.len() - n,
{
    if n < d.len() {
        lemma_octal_prefix(d, n + 1);
        assert(d.take(n + 1).drop_last() =~= d.take(n));
        assert(d.take(n + 1).last() == d[n]);
        assert(is_octal(d[n]));
    } else {
        assert(d.take(n) =~= d);
        lemma_octal_nonneg(d);
    }
}

proof fn lemma_octal_nonneg(d: Seq<char>)
    requires
        all_octal(d),
    ensures
        octal_value(d) >= 0,
    decreases d.len(),
{
    if d.len() > 0 {
        assert(is_octal(d[d.len() - 1]));
        lemma_octal_nonneg(d.drop_last());
    }
}

/// Parses `s` as `u32::from_str_radix(s, 8)` does.
pub fn parse_octal_u32(s: &[char]) -> (r: Option<u32>)
    ensures
        r == match parse_octal(s@, u32::MAX as int) {
            Some(v) => Some(v as u32),
            None => None::<u32>,
        },
{
    let start: usize = if s.len() > 0 && s[0] == '+' {
        1
    } else {
        0
    };
    let ghost d = octal_digits(s@);
    assert(d =~= s@.skip(start as int));
    if start >= s.len() {
        return None;
    }
    let mut value: u32 = 0;
    let mut i: usize = start;
    while i < s.len()
        invariant
            start <= i <= s.len(),
            d == s@.skip(start as int),
            d == octal_digits(s@),
            forall|k: int| 0 <= k < i - start ==> is_octal(#[trigger] d[k]),
            value as int == octal_value(d.take(i - start)),
        decreases s.len() - i,
    {
        let c = s[i];
        assert(d.take(i + 1 - start).drop_last() =~= d.take(i - start));
        assert(d.take(i + 1 - start).last() == c);
        assert(d[i - start] == c);
        if !('0' <= c && c <= '7') {
            assert(!is_octal(d[i - start]));
            assert(!all_octal(d));
            assert(parse_octal(s@, u32::MAX as int) is None);
            return None;
        }
        let digit = (c as u32) - ('0' as u32);
        if value > (u32::MAX - digit) / 8 {
            proof {
                assert(octal_value(d.take(i + 1 - start)) > u32::MAX) by (nonlinear_arith)
                    requires
                        octal_value(d.take(i + 1 - start)) == value * 8 + digit,
                        value > (u32::MAX - digit) / 8,
                        0 <= digit <= 7,
                ;
                if all_octal(d) {
                    lemma_octal_prefix(d, i + 1 - start);
                }
                assert(parse_octal(s@, u32::MAX as int) is None);
            }
            return None;
        }
        assert(value * 8 + digit <= u32::MAX) by (nonlinear_arith)
            requires
                value <= (u32::MAX - digit) / 8,
                0 <= digit <= 7,
        ;
        value = value * 8 + digit;
        i += 1;
    }
    assert(d.take(s.len() - start) =~= d);
    Some(value)
}

/// What the low two bits of the open flags say of the access mode.
pub open spec fn access_of_flags(flags: int) -> FileAccess {
    if flags % 4 == 0 {
        FileAccess::Read
    } else if flags % 4 == 1 || flags % 4 == 2 {
        FileAccess::Write
    } else {
        FileAccess::Unknown
    }
}

/// The access mode named by the body of `/proc/<pid>/fdinfo/<fd>`: the
/// octal `flags:` field's `O_ACCMODE` bits, `Unknown` when the body is
/// missing or has no readable field. (Splitting at line feeds reads the
/// field as `str::lines` does here: a trailing carriage return is trimmed.)
pub open spec fn fd_access_spec(info: Option<Seq<char>>) -> FileAccess {
    match info {
        None => FileAccess::Unknown,
        Some(t) => match line_field(split_on(t, '\n'), seq!['f', 'l', 'a', 'g', 's', ':']) {
            None => FileAccess::Unknown,
            Some(rest) => match parse_octal(trim_ws(rest), u32::MAX as int) {
                None => FileAccess::Unknown,
                Some(f) => access_of_flags(f),
            },
        },
    }
}

/// The access mode named by the text after `flags:`.
fn access_of_field(rest: &[char]) -> (r: FileAccess)
    ensures
        r == match parse_octal(trim_ws(rest@), u32::MAX as int) {
            None => FileAccess::Unknown,
            Some(f) => access_of_flags(f),
        },
{
    let trimmed = trim(rest);
    proof {
        if all_octal(octal_digits(trimmed@)) {
            lemma_octal_nonneg(octal_digits(trimmed@));
        }
    }
    match parse_octal_u32(trimmed.as_slice()) {
        None => FileAccess::Unknown,
        Some(f) => {
            let low = f & 3;
            assert(f & 3 == f % 4) by (bit_vector);
            if low == 0 {
                FileAccess::Read
            } else if low == 1 || low == 2 {
                FileAccess::Write
            } else {
                FileAccess::Unknown
            }
        },
    }
}

/// The access mode of a descriptor, from its fdinfo body.
pub fn fd_access_from_fdinfo(info: Option<&str>) -> (r: FileAccess)
    ensures
        r == fd_access_spec(
            match info {
                Some(t) => Some(t@),
                None => None,
            },
        ),
{
    let t = match info {
        None => return FileAccess::Unknown,
        Some(t) => t,
    };
    let cs = chars_of(t);
    let lines = split_chars(cs.as_slice(), '\n');
    let ghost all = seqs_of(lines@);
    let key = vec!['f', 'l', 'a', 'g', 's', ':'];
    let ghost k = seq!['f', 'l', 'a', 'g', 's', ':'];
    assert(key@ =~= k);
    assert(k.len() == 6);
    let mut i: usize = 0;
    assert(all.skip(0) =~= all);
    while i < lines.len()
        invariant
            i <= lines.len(),
            all == seqs_of(lines@),
            all == split_on(t@, '\n'),
            key@ == k,
            k == seq!['f', 'l', 'a', 'g', 's', ':'],
            k.len() == 6,
            info == Some(t),
            line_field(all, k) == line_field(all.skip(i as int), k),
        decreases lines.len() - i,
    {
        assert(all.skip(i as int)[0] == lines@[i as int]@);
        assert(all.skip(i as int).drop_first() =~= all.skip(i + 1));
        if chars_starts_with(lines[i].as_slice(), key.as_slice()) {
            let rest = sub_chars(lines[i].as_slice(), 6, lines[i].len());
            assert(rest@ =~= lines@[i as int]@.skip(6));
            assert(starts_with(all.skip(i as int)[0], k));
            assert(line_field(all.skip(i as int), k) == Some(all.skip(i as int)[0].skip(k.len() as int)));
            return access_of_field(rest.as_slice());
        }
        i += 1;
    }
    assert(all.skip(i as int) =~= Seq::<Seq<char>>::empty());
    FileAccess::Unknown
}


/// `s` parsed as `str::parse::<i32>` does: an optional sign, then digits,
/// within the range of `i32`.
pub open spec fn parse_i32_spec(s: Seq<char>) -> Option<i32> {
    if s.len() > 0 && s[0] == '-' {
        let d = s.drop_first();
        if d.len() > 0 && all_digits(d) && digits_value(d) <= 0x8000_0000 {
            Some((0 - digits_value(d)) as i32)
        } else {
            None
        }
    } else {
        match parse_unsigned(s, i32::MAX as int) {
            Some(v) => Some(v as i32),
            None => None,
        }
    }
}

/// Parses `s` as `str::parse::<i32>` does.
pub fn parse_i32(s: &[char]) -> (r: Option<i32>)
    ensures
        r == parse_i32_spec(s@),
{
    if s.len() > 0 && s[0] == '-' {
        let d = sub_chars(s, 1, s.len());
        assert(d@ =~= s@.drop_first());
        if d.len() == 0 || d[0] == '+' {
            proof {
                if d.len() > 0 {
                    assert(!crate::text::is_digit(d@[0]));
                }
            }
            return None;
        }
        assert(crate::text::unsigned_digits(d@) == d@);
        proof {
            if all_digits(d@) {
                crate::text::lemma_digits_value_nonneg(d@);
            }
        }
        match parse_u64(d.as_slice()) {
            Some(v) => {
                if v <= 0x8000_0000 {
                    let n: i64 = 0 - (v as i64);
                    Some(n as i32)
                } else {
                    None
                }
            },
            None => None,
        }
    } else {
        proof {
            let d = crate::text::unsigned_digits(s@);
            if all_digits(d) {
                crate::text::lemma_digits_value_nonneg(d);
            }
        }
        match parse_u64(s) {
            Some(v) => {
                if v <= i32::MAX as u64 {
                    Some(v as i32)
                } else {
                    None
                }
            },
            None => None,
        }
    }
}

/// Kernel-internal descriptors that the feed leaves out: anonymous inodes,
/// pipes, `/dev/null` and terminals.
pub open spec fn internal_target(t: Seq<char>) -> bool {
    starts_with(t, "anon_inode:"@) || starts_with(t, "pipe:["@) || t == "/dev/null"@ || starts_with(
        t,
        "/dev/pts/"@,
    )
}

/// Whether a descriptor target is kernel-internal.
pub fn is_internal_target(t: &[char]) -> (r: bool)
    ensures
        r == internal_target(t@),
{
    let anon = chars_of("anon_inode:");
    let pipe = chars_of("pipe:[");
    let null = chars_of("/dev/null");
    let pts = chars_of("/dev/pts/");
    chars_starts_with(t, anon.as_slice()) || chars_starts_with(t, pipe.as_slice()) || chars_eq(
        t,
        null.as_slice(),
    ) || chars_starts_with(t, pts.as_slice())
}

/// One entry of `/proc/<pid>/fd` as read: its name, the link target where
/// it could be read, and the body of its fdinfo file where it could be read.
#[derive(Debug, Clone, PartialEq, Eq)]
pub struct FdEntry {
    pub name: String,
    pub target: Option<String>,
    pub fdinfo: Option<String>,
}

/// One changed, user-visible descriptor found by a scan.
#[derive(Debug, Clone, PartialEq, Eq)]
pub struct FdObservation {
    pub pid: u32,
    pub fd: i32,
    pub path: String,
    pub access: FileAccess,
    pub comm: String,
}

/// A scan's result so far: the cache, the reported descriptors (number,
/// target, access), and whether the report is full.
pub type ScanState = (CacheView, Seq<(i32, Seq<char>, FileAccess)>, bool);

/// The scan of `entries` from cache `v0`, entry by entry: names that are no
/// descriptor number are skipped; an unreadable link forgets its cached
/// target; a readable one is observed and reported when it changed, is not
/// kernel-internal, and the report has room (a full report ends the scan).
pub open spec fn scan_spec(
    cap: nat,
    v0: CacheView,
    process: LifecycleToken,
    entries: Seq<FdEntry>,
) -> ScanState
    decreases entries.len(),
{
    if entries.len() == 0 {
        (v0, Seq::empty(), false)
    } else {
        let prev = scan_spec(cap, v0, process, entries.drop_last());
        let v = prev.0;
        let out = prev.1;
        if prev.2 {
            prev
        } else {
            let e = entries.last();
            match parse_i32_spec(e.name@) {
                None => prev,
                Some(fd) => {
                    let token = InvalidationToken { process: process, fd: fd };
                    match e.target {
                        None => (without_token(v, token), out, false),
                        Some(t) => {
                            let changed = !v.contains((token, t@));
                            let v2 = observe_view(cap, v, token, t@);
                            if !changed || internal_target(t@) {
                                (v2, out, false)
                            } else if out.len() >= MAX_EVENTS_PER_TICK {
                                (v2, out, true)
                            } else {
                                (v2, out.push((fd, t@, fd_access_spec(opt_chars(e.fdinfo)))), false)
                            }
                        },
                    }
                },
            }
        }
    }
}

proof fn lemma_scan_stays_stopped(
    cap: nat,
    v0: CacheView,
    process: LifecycleToken,
    entries: Seq<FdEntry>,
    n: int,
)
    requires
        0 <= n <= entries.len(),
        scan_spec(cap, v0, process, entries.take(n)).2,
    ensures
        scan_spec(cap, v0, process, entries) == scan_spec(cap, v0, process, entries.take(n)),
    decreases entries.len() - n,
{
    if n < entries.len() {
        assert(entries.take(n + 1).drop_last() =~= entries.take(n));
        lemma_scan_stays_stopped(cap, v0, process, entries, n + 1);
    } else {
        assert(entries.take(n) =~= entries);
    }
}

/// A report as plain values.
pub open spec fn observations_view(obs: Seq<FdObservation>) -> Seq<(i32, Seq<char>, FileAccess)> {
    obs.map_values(|o: FdObservation| (o.fd, o.path@, o.access))
}

/// Reports the changed, user-visible descriptors among the `/proc/<pid>/fd`
/// entries of the process incarnation `process`, updating the cache. This
/// observes only: it publishes nothing and enforces nothing.
pub fn scan_process_fds(
    pid: u32,
    process: LifecycleToken,
    comm: &str,
    entries: &[FdEntry],
    path_cache: &mut PathCache,
) -> (obs: Vec<FdObservation>)
    requires
        old(path_cache).wf(),
    ensures
        final(path_cache).wf(),
        final(path_cache).capacity_view() == old(path_cache).capacity_view(),
        final(path_cache)@ == scan_spec(
            old(path_cache).capacity_view(),
            old(path_cache)@,
            process,
            entries@,
        ).0,
        observations_view(obs@) == scan_spec(
            old(path_cache).capacity_view(),
            old(path_cache)@,
            process,
            entries@,
        ).1,
        forall|i: int| 0 <= i < obs@.len() ==> (#[trigger] obs@[i]).pid == pid && obs@[i].comm@ == comm@,
{
    let ghost cap = path_cache.capacity_view();
    let ghost v0 = path_cache@;
    let mut obs: Vec<FdObservation> = Vec::new();
    let mut i: usize = 0;
    let mut full = false;
    assert(entries@.take(0) =~= Seq::<FdEntry>::empty());
    assert(observations_view(obs@) =~= Seq::<(i32, Seq<char>, FileAccess)>::empty());
    while i < entries.len() && !full
        invariant
            i <= entries.len(),
            path_cache.wf(),
            path_cache.capacity_view() == cap,
            scan_spec(cap, v0, process, entries@.take(i as int)) == (
                path_cache@,
                observations_view(obs@),
                full,
            ),
            forall|k: int| 0 <= k < obs@.len() ==> (#[trigger] obs@[k]).pid == pid && obs@[k].comm@ == comm@,
        decreases entries.len() - i,
    {
        let ghost before = entries@.take(i as int);
        assert(entries@.take(i + 1).drop_last() =~= before);
        assert(entries@.take(i + 1).last() == entries@[i as int]);
        let e = &entries[i];
        let name = chars_of(e.name.as_str());
        let fd = match parse_i32(name.as_slice()) {
            Some(fd) => fd,
            None => {
                i += 1;
                continue;
            },
        };
        let token = InvalidationToken { process, fd };
        match &e.target {
            None => {
                path_cache.invalidate(token);
            },
            Some(t) => {
                let changed = path_cache.observe(token, t.as_str());
                let tc = chars_of(t.as_str());
                if changed && !is_internal_target(tc.as_slice()) {
                    if obs.len() >= MAX_EVENTS_PER_TICK {
                        full = true;
                    } else {
                        let access = match &e.fdinfo {
                            Some(f) => fd_access_from_fdinfo(Some(f.as_str())),
                            None => fd_access_from_fdinfo(None),
                        };
                        let ghost old_obs = obs@;
                        obs.push(
                            FdObservation {
                                pid,
                                fd,
                                path: t.clone(),
                                access,
                                comm: comm.to_owned(),
                            },
                        );
                        assert(observations_view(obs@) =~= observations_view(old_obs).push(
                            (fd, t@, access),
                        ));
                    }
                }
            },
        }
        i += 1;
    }
    proof {
        if full {
            lemma_scan_stays_stopped(cap, v0, process, entries@, i as int);
        } else {
            assert(entries@.take(i as int) =~= entries@);
        }
    }
    obs
}

/// Entry `i` of `out` is a child, by some link, of an entry before it.
pub open spec fn has_parent_before(links: Seq<(u32, u32)>, out: Seq<u32>, i: int) -> bool {
    exists|j: int| 0 <= j < links.len() && links[j].0 == out[i] && #[trigger] out.take(i).contains(links[j].1)
}

/// The child pids that `links` (each a pid and its parent pid) name.
pub open spec fn link_children(links: Seq<(u32, u32)>) -> Seq<u32> {
    links.map_values(|l: (u32, u32)| l.0)
}

proof fn lemma_distinct_children_bounded(extra: Seq<u32>, links: Seq<(u32, u32)>)
    requires
        extra.no_duplicates(),
        forall|i: int| 0 <= i < extra.len() ==> link_children(links).contains(#[trigger] extra[i]),
    ensures
        extra.len() <= links.len(),
{
    let kids = link_children(links);
    extra.unique_seq_to_set();
    kids.lemma_cardinality_of_set();
    assert(extra.to_set().subset_of(kids.to_set())) by {
        assert forall|x: u32| extra.to_set().contains(x) implies kids.to_set().contains(x) by {
            let i = choose|i: int| 0 <= i < extra.len() && extra[i] == x;
            assert(kids.contains(extra[i]));
        }
    }
    vstd::set_lib::lemma_len_subset(extra.to_set(), kids.to_set());
}

fn contains_pid(v: &Vec<u32>, x: u32) -> (r: bool)
    ensures
        r == v@.contains(x),
{
    let mut i: usize = 0;
    while i < v.len()
        invariant
            i <= v.len(),
            forall|k: int| 0 <= k < i ==> v@[k] != x,
        decreases v.len() - i,
    {
        if v[i] == x {
            return true;
        }
        i += 1;
    }
    false
}

/// The sandbox's process tree, breadth first from `roots` over `links` (each
/// a pid and its parent, as `/proc` lists them): the roots first, then every
/// descendant once, each after its parent, until no listed child of a
/// collected pid is missing.
pub fn collect_subtree(roots: &[u32], links: &[(u32, u32)]) -> (out: Vec<u32>)
    ensures
        out@.len() >= roots@.len(),
        out@.take(roots@.len() as int) == roots@,
        forall|i: int| roots@.len() <= i < out@.len() ==> #[trigger] has_parent_before(links@, out@, i),
        forall|j: int| 0 <= j < links@.len() && out@.contains(#[trigger] links@[j].1) ==> out@.contains(links@[j].0),
        forall|i: int, k: int| 0 <= i < k < out@.len() && roots@.len() <= k ==> out@[i] != out@[k],
{
    let mut out: Vec<u32> = Vec::new();
    let mut r: usize = 0;
    while r < roots.len()
        invariant
            r <= roots.len(),
            out@ == roots@.take(r as int),
        decreases roots.len() - r,
    {
        out.push(roots[r]);
        assert(roots@.take(r + 1) =~= roots@.take(r as int).push(roots@[r as int]));
        r += 1;
    }
    assert(roots@.take(roots.len() as int) =~= roots@);
    let n = roots.len();
    let mut h: usize = 0;
    while h < out.len()
        invariant
            n == roots.len(),
            n <= out.len() <= n + links.len(),
            h <= out.len(),
            out@.take(n as int) == roots@,
            forall|i: int| n <= i < out@.len() ==> #[trigger] has_parent_before(links@, out@, i),
            forall|i: int, k: int| 0 <= i < k < out@.len() && n <= k ==> out@[i] != out@[k],
            forall|j: int, p: int|
                0 <= j < links@.len() && 0 <= p < h && #[trigger] links@[j].1 == #[trigger] out@[p] ==> out@.contains(
                    links@[j].0,
                ),
        decreases n + links.len() - h,
    {
        let pid = out[h];
        let mut j: usize = 0;
        while j < links.len()
            invariant
                n == roots.len(),
                n <= out.len() <= n + links.len(),
                h < out.len(),
                pid == out@[h as int],
                j <= links.len(),
                out@.take(n as int) == roots@,
                forall|i: int| n <= i < out@.len() ==> #[trigger] has_parent_before(links@, out@, i),
                forall|i: int, k: int| 0 <= i < k < out@.len() && n <= k ==> out@[i] != out@[k],
                forall|jj: int, p: int|
                    0 <= jj < links@.len() && 0 <= p < h && #[trigger] links@[jj].1 == #[trigger] out@[p] ==> out@.contains(
                        links@[jj].0,
                    ),
                forall|jj: int| 0 <= jj < j && #[trigger] links@[jj].1 == pid ==> out@.contains(links@[jj].0),
            decreases links.len() - j,
        {
            let (child, parent) = links[j];
            if parent == pid && !contains_pid(&out, child) {
                let ghost before = out@;
                proof {
                    let extra = before.skip(n as int).push(child);
                    assert forall|a: int, b: int| 0 <= a < b < extra.len() implies extra[a] != extra[b] by {
                        if b < extra.len() - 1 {
                            assert(extra[a] == before[n + a]);
                            assert(extra[b] == before[n + b]);
                        } else {
                            assert(extra[a] == before[n + a]);
                        }
                    }
                    assert forall|i: int| 0 <= i < extra.len() implies link_children(links@).contains(#[trigger] extra[i]) by {
                        if i < extra.len() - 1 {
                            assert(has_parent_before(links@, before, n + i));
                            let jj = choose|jj: int|
                                0 <= jj < links@.len() && links@[jj].0 == before[n + i] && #[trigger] before.take(n + i).contains(
                                    links@[jj].1,
                                );
                            assert(link_children(links@)[jj] == extra[i]);
                        } else {
                            assert(link_children(links@)[j as int] == extra[i]);
                        }
                    }
                    lemma_distinct_children_bounded(extra, links@);
                }
                out.push(child);
                proof {
                    assert(out@.take(n as int) =~= before.take(n as int));
                    assert forall|i: int| n <= i < out@.len() implies #[trigger] has_parent_before(links@, out@, i) by {
                        if i < before.len() {
                            assert(has_parent_before(links@, before, i));
                            let jj = choose|jj: int|
                                0 <= jj < links@.len() && links@[jj].0 == before[i] && #[trigger] before.take(i).contains(
                                    links@[jj].1,
                                );
                            assert(out@.take(i) =~= before.take(i));
                            assert(out@.take(i).contains(links@[jj].1));
                        } else {
                            assert(out@.take(i) =~= before);
                            assert(before[h as int] == links@[j as int].1);
                            assert(out@.take(i).contains(links@[j as int].1));
                        }
                    }
                    assert forall|jj: int, p: int|
                        0 <= jj < links@.len() && 0 <= p < h && #[trigger] links@[jj].1 == #[trigger] out@[p] implies out@.contains(
                            links@[jj].0,
                        ) by {
                        assert(out@[p] == before[p]);
                        let q = choose|q: int| 0 <= q < before.len() && before[q] == links@[jj].0;
                        assert(out@[q] == before[q]);
                    }
                    assert forall|jj: int| 0 <= jj <= j && #[trigger] links@[jj].1 == pid implies out@.contains(links@[jj].0) by {
                        if jj < j {
                            let q = choose|q: int| 0 <= q < before.len() && before[q] == links@[jj].0;
                            assert(out@[q] == before[q]);
                        } else {
                            assert(out@[before.len() as int] == child);
                        }
                    }
                }
            }
            j += 1;
        }
        h += 1;
    }
    out
}

} // verus!
