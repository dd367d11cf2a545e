use vstd::prelude::*;

verus! {

/// The locks of a resolver, each a key and the start timestamp of the
/// transaction that holds it.
pub type LockSeq = Seq<(Seq<u8>, u64)>;

/// Whether two byte strings are equal.
pub fn bytes_eq(a: &[u8], b: &[u8]) -> (r: bool)
    ensures
        r == (a@ == b@),
{
    if a.len() != b.len() {
        return false;
    }
    let mut i: usize = 0;
    while i < a.len()
        invariant
            a@.len() == b@.len(),
            i <= a@.len(),
            a@.subrange(0, i as int) == b@.subrange(0, i as int),
        decreases a@.len() - i,
    {
        if a[i] != b[i] {
            assert(a@.subrange(0, i as int + 1)[i as int] != b@.subrange(0, i as int + 1)[i as int]);
            return false;
        }
        i = i + 1;
        assert(a@.subrange(0, i as int) =~= b@.subrange(0, i as int));
    }
    assert(a@ =~= a@.subrange(0, i as int));
    assert(b@ =~= b@.subrange(0, i as int));
    true
}

/// The position of the last lock on `key`, or -1.
pub open spec fn lock_pos(locks: LockSeq, key: Seq<u8>) -> int
    decreases locks.len(),
{
    if locks.len() == 0 {
        -1
    } else if locks.last().0 == key {
        locks.len() - 1
    } else {
        lock_pos(locks.drop_last(), key)
    }
}

/// No key is locked twice.
pub open spec fn keys_unique(locks: LockSeq) -> bool {
    forall|i: int, j: int| 0 <= i < j < locks.len() ==> locks[i].0 != locks[j].0
}

/// The locks after `key` is tracked under `start_ts`.
pub open spec fn track_spec(locks: LockSeq, start_ts: u64, key: Seq<u8>) -> LockSeq {
    let p = lock_pos(locks, key);
    if p >= 0 {
        locks.update(p, (key, start_ts))
    } else {
        locks.push((key, start_ts))
    }
}

/// The locks after the lock on `key` under `start_ts`, if tracked, is dropped.
pub open spec fn untrack_spec(locks: LockSeq, start_ts: u64, key: Seq<u8>) -> LockSeq {
    let p = lock_pos(locks, key);
    if p >= 0 && locks[p].1 == start_ts {
        locks.remove(p)
    } else {
        locks
    }
}

/// The smallest start timestamp of any lock.
pub open spec fn min_lock_ts(locks: LockSeq) -> Option<u64>
    decreases locks.len(),
{
    if locks.len() == 0 {
        None
    } else {
        match min_lock_ts(locks.drop_last()) {
            None => Some(locks.last().1),
            Some(m) => Some(
                if locks.last().1 < m {
                    locks.last().1
                } else {
                    m
                },
            ),
        }
    }
}

/// The smaller of `min_ts` and every tracked start timestamp.
pub open spec fn resolve_candidate(locks: LockSeq, min_ts: u64) -> u64 {
    match min_lock_ts(locks) {
        Some(m) => if m < min_ts {
            m
        } else {
            min_ts
        },
        None => min_ts,
    }
}

/// A key held by a transaction.
pub struct TrackedLock {
    pub key: Vec<u8>,
    pub start_ts: u64,
}

/// Tracks in-flight transactions and computes the resolved timestamp: the
/// largest timestamp at or below which no more commits can appear.
pub struct Resolver {
    locks: Vec<TrackedLock>,
    resolved_ts: Option<u64>,
    initialized: bool,
}

pub struct ResolverView {
    pub locks: LockSeq,
    pub resolved_ts: Option<u64>,
    pub initialized: bool,
}

impl View for Resolver {
    type V = ResolverView;

    closed spec fn view(&self) -> ResolverView {
        ResolverView {
            locks: self.locks@.map_values(|l: TrackedLock| (l.key@, l.start_ts)),
            resolved_ts: self.resolved_ts,
            initialized: self.initialized,
        }
    }
}

/// What `resolve` does: the resolver after it, and what it returns. Nothing
/// comes before initialization, nor unless the value is strictly larger than
/// the last one returned.
pub open spec fn resolve_spec(r: ResolverView, min_ts: u64) -> (ResolverView, Option<u64>) {
    let c = resolve_candidate(r.locks, min_ts);
    if !r.initialized {
        (r, None)
    } else if r.resolved_ts is Some && r.resolved_ts.unwrap() >= c {
        (r, None)
    } else {
        (ResolverView { resolved_ts: Some(c), ..r }, Some(c))
    }
}

/// May a write committed at `commit_ts` still be taken in, given the resolved
/// timestamp? Only a commit above it may.
pub open spec fn commit_allowed(resolved_ts: Option<u64>, commit_ts: Option<u64>) -> bool {
    match (resolved_ts, commit_ts) {
        (Some(r), Some(c)) => c > r,
        _ => true,
    }
}

proof fn lemma_lock_pos_absent(locks: LockSeq, key: Seq<u8>)
    ensures
        -1 <= lock_pos(locks, key) < locks.len(),
        lock_pos(locks, key) >= 0 ==> locks[lock_pos(locks, key)].0 == key,
        lock_pos(locks, key) == -1 ==> forall|i: int| 0 <= i < locks.len() ==> locks[i].0 != key,
    decreases locks.len(),
{
    if locks.len() > 0 {
        lemma_lock_pos_absent(locks.drop_last(), key);
        assert forall|i: int| 0 <= i < locks.len() - 1 implies locks[i] == locks.drop_last()[i] by {}
    }
}

impl Resolver {
    pub open spec fn wf(&self) -> bool {
        keys_unique(self@.locks)
    }

    /// A resolver with no locks, not yet initialized.
    pub fn new() -> (r: Resolver)
        ensures
            r.wf(),
            r@.locks == Seq::<(Seq<u8>, u64)>::empty(),
            r@.resolved_ts is None,
            !r@.initialized,
    {
        let r = Resolver { locks: Vec::new(), resolved_ts: None, initialized: false };
        assert(r@.locks =~= Seq::<(Seq<u8>, u64)>::empty());
        r
    }

    /// Marks the resolver ready: from now on it resolves.
    pub fn init(&mut self)
        requires
            old(self).wf(),
        ensures
            final(self).wf(),
            final(self)@ == (ResolverView { initialized: true, ..old(self)@ }),
    {
        self.initialized = true;
    }

    pub fn resolved_ts(&self) -> (r: Option<u64>)
        ensures
            r == self@.resolved_ts,
    {
        self.resolved_ts
    }

    pub fn is_initialized(&self) -> (r: bool)
        ensures
            r == self@.initialized,
    {
        self.initialized
    }

    /// The number of tracked locks.
    pub fn num_locks(&self) -> (r: usize)
        ensures
            r == self@.locks.len(),
    {
        self.locks.len()
    }

    fn find(&self, key: &[u8]) -> (r: Option<usize>)
        ensures
            match r {
                Some(p) => p as int == lock_pos(self@.locks, key@) && p >= 0,
                None => lock_pos(self@.locks, key@) == -1,
            },
    {
        let ghost all = self@.locks;
        let mut i: usize = self.locks.len();
        assert(all.subrange(0, i as int) =~= all);
        while i > 0
            invariant
                i <= self.locks@.len(),
                all == self@.locks,
                lock_pos(all, key@) == lock_pos(all.subrange(0, i as int), key@),
            decreases i,
        {
            let ghost sub = all.subrange(0, i as int);
            assert(sub.last() == all[i - 1]);
            if bytes_eq(self.locks[i - 1].key.as_slice(), key) {
                return Some(i - 1);
            }
            assert(sub.drop_last() =~= all.subrange(0, i - 1));
            i = i - 1;
        }
        None
    }

    /// Records that the transaction started at `start_ts` holds `key`. A key
    /// is held by at most one transaction: tracking it again moves it.
    pub fn track_lock(&mut self, start_ts: u64, key: Vec<u8>)
        requires
            old(self).wf(),
        ensures
            final(self).wf(),
            final(self)@ == (ResolverView {
                locks: track_spec(old(self)@.locks, start_ts, key@),
                ..old(self)@
            }),
    {
        let ghost k = key@;
        proof {
            lemma_lock_pos_absent(self@.locks, key@);
        }
        match self.find(key.as_slice()) {
            Some(p) => {
                self.locks.set(p, TrackedLock { key, start_ts });
            },
            None => {
                self.locks.push(TrackedLock { key, start_ts });
            },
        }
        assert(self@.locks =~= track_spec(old(self)@.locks, start_ts, k));
    }

    /// Drops the lock that the transaction started at `start_ts` holds on
    /// `key`; nothing happens if it holds none. `commit_ts` is the commit
    /// timestamp of the transaction, if it committed; the locks do not depend
    /// on it.
    pub fn untrack_lock(&mut self, start_ts: u64, commit_ts: Option<u64>, key: Vec<u8>)
        requires
            old(self).wf(),
        ensures
            final(self).wf(),
            final(self)@ == (ResolverView {
                locks: untrack_spec(old(self)@.locks, start_ts, key@),
                ..old(self)@
            }),
    {
        proof {
            lemma_lock_pos_absent(self@.locks, key@);
        }
        match self.find(key.as_slice()) {
            Some(p) => {
                if self.locks[p].start_ts == start_ts {
                    self.locks.remove(p);
                }
            },
            None => {},
        }
        assert(self@.locks =~= untrack_spec(old(self)@.locks, start_ts, key@));
    }

    fn min_start_ts(&self) -> (r: Option<u64>)
        ensures
            r == min_lock_ts(self@.locks),
    {
        let ghost all = self@.locks;
        let mut m: Option<u64> = None;
        let mut i: usize = 0;
        while i < self.locks.len()
            invariant
                i <= self.locks@.len(),
                all == self@.locks,
                m == min_lock_ts(all.subrange(0, i as int)),
            decreases self.locks@.len() - i,
        {
            let ts = self.locks[i].start_ts;
            m = match m {
                None => Some(ts),
                Some(x) => Some(
                    if ts < x {
                        ts
                    } else {
                        x
                    },
                ),
            };
            i = i + 1;
            assert(all.subrange(0, i as int).drop_last() =~= all.subrange(0, i - 1));
        }
        assert(all.subrange(0, i as int) =~= all);
        m
    }

    /// Computes the resolved timestamp from `min_ts`: the smaller of it and
    /// the oldest tracked start timestamp. Returns it only if the resolver is
    /// initialized and it is strictly larger than the last one returned.
    pub fn resolve(&mut self, min_ts: u64) -> (r: Option<u64>)
        requires
            old(self).wf(),
        ensures
            final(self).wf(),
            (final(self)@, r) == resolve_spec(old(self)@, min_ts),
    {
        if !self.initialized {
            return None;
        }
        let c = match self.min_start_ts() {
            Some(m) => if m < min_ts {
                m
            } else {
                min_ts
            },
            None => min_ts,
        };
        match self.resolved_ts {
            Some(old_ts) => if old_ts >= c {
                return None;
            },
            None => {},
        }
        self.resolved_ts = Some(c);
        Some(c)
    }
}

} // verus!
