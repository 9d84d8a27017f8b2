//! Per-user, per-resource-kind quota enforcement with refillable token
//! buckets. The limiter keeps one bucket per (identity, resource kind)
//! pair, hydrates a bucket from a previously persisted record on first
//! access, and hands back a snapshot of the post-check state so the caller
//! can persist it without blocking.

use crate::UserId;
use vstd::prelude::*;

verus! {

/// Static description of one rate-limited resource kind: how many checks
/// a full bucket holds, over which window (in milliseconds) the bucket
/// refills completely, the kind's identity inside the cache, and the name
/// under which its buckets are persisted.
#[derive(Clone, Debug)]
pub struct RateLimit {
    pub kind_id: u64,
    pub capacity: usize,
    pub refill_duration_ms: u64,
    pub db_name: String,
}

impl RateLimit {
    /// A usable descriptor: at least one token, and a window long enough
    /// that each token's refill time is at least one millisecond.
    pub open spec fn wf(self) -> bool {
        &&& 1 <= self.capacity
        &&& self.capacity as u64 <= self.refill_duration_ms
    }
}

/// The refillable bucket of one (identity, resource kind) pair.
#[derive(Clone, Copy, Debug, PartialEq, Eq, Structural)]
pub struct RateBucket {
    pub capacity: usize,
    pub token_count: usize,
    pub refill_time_per_token_ms: u64,
    pub last_refill_ms: u64,
}

/// A bucket snapshot as it is persisted and restored: the two fields of
/// the durable record.
#[derive(Clone, Copy, Debug, PartialEq, Eq, Structural)]
pub struct StoredBucket {
    pub token_count: usize,
    pub last_refill_ms: u64,
}

/// The caller-visible denial: the quota for this pair is exhausted.
#[derive(Clone, Copy, Debug, PartialEq, Eq, Structural)]
pub struct RateLimited;

impl RateBucket {
    /// The bucket invariant: the token count never exceeds the capacity,
    /// and the static parameters are usable.
    pub open spec fn wf(self) -> bool {
        &&& self.token_count <= self.capacity
        &&& 1 <= self.capacity
        &&& 1 <= self.refill_time_per_token_ms
    }
}

/// The refill step: once at least one token's worth of time has elapsed,
/// credit the earned tokens (capped at the capacity) and advance the
/// refill anchor; otherwise leave the bucket untouched, preserving the
/// fractional progress toward the next token. A clock that moved backwards
/// reads as no elapsed time.
pub open spec fn spec_refill(b: RateBucket, now_ms: u64) -> RateBucket {
    let elapsed: int = if now_ms >= b.last_refill_ms {
        now_ms - b.last_refill_ms
    } else {
        0
    };
    if elapsed >= b.refill_time_per_token_ms {
        let gained = elapsed / (b.refill_time_per_token_ms as int);
        let filled: int = if b.token_count + gained >= b.capacity {
            b.capacity as int
        } else {
            b.token_count + gained
        };
        RateBucket { token_count: filled as usize, last_refill_ms: now_ms, ..b }
    } else {
        b
    }
}

/// Whether a check at `now_ms` succeeds: after refilling, is a token
/// available?
pub open spec fn spec_allowed(b: RateBucket, now_ms: u64) -> bool {
    spec_refill(b, now_ms).token_count > 0
}

/// The bucket after a check at `now_ms`: refill, then consume one token if
/// one is available (a denied check changes nothing beyond the refill).
pub open spec fn spec_allow_bucket(b: RateBucket, now_ms: u64) -> RateBucket {
    let r = spec_refill(b, now_ms);
    if r.token_count > 0 {
        RateBucket { token_count: (r.token_count - 1) as usize, ..r }
    } else {
        r
    }
}

/// A bucket created at full capacity for `limit`, anchored at `now_ms`.
pub open spec fn spec_fresh_bucket(limit: RateLimit, now_ms: u64) -> RateBucket {
    RateBucket {
        capacity: limit.capacity,
        token_count: limit.capacity,
        refill_time_per_token_ms: limit.refill_duration_ms / (limit.capacity as u64),
        last_refill_ms: now_ms,
    }
}

/// A bucket reconstructed from a persisted record, with the token count
/// clamped to the kind's capacity.
pub open spec fn spec_hydrated_bucket(limit: RateLimit, stored: StoredBucket) -> RateBucket {
    RateBucket {
        capacity: limit.capacity,
        token_count: if stored.token_count >= limit.capacity {
            limit.capacity
        } else {
            stored.token_count
        },
        refill_time_per_token_ms: limit.refill_duration_ms / (limit.capacity as u64),
        last_refill_ms: stored.last_refill_ms,
    }
}

impl RateBucket {
    /// A fresh, full bucket for a kind with the given capacity and refill
    /// window.
    pub fn new(capacity: usize, refill_duration_ms: u64, now_ms: u64) -> (r: RateBucket)
        requires
            1 <= capacity,
            capacity as u64 <= refill_duration_ms,
        ensures
            r == (RateBucket {
                capacity,
                token_count: capacity,
                refill_time_per_token_ms: refill_duration_ms / (capacity as u64),
                last_refill_ms: now_ms,
            }),
            r.wf(),
    {
        proof {
            lemma_div_at_least_one(refill_duration_ms as int, capacity as int);
        }
        RateBucket {
            capacity,
            token_count: capacity,
            refill_time_per_token_ms: refill_duration_ms / (capacity as u64),
            last_refill_ms: now_ms,
        }
    }

    /// Credit the tokens earned since the last refill, capped at the
    /// capacity.
    pub fn refill(&mut self, now_ms: u64)
        requires
            old(self).wf(),
        ensures
            *final(self) == spec_refill(*old(self), now_ms),
            final(self).wf(),
    {
        if now_ms >= self.last_refill_ms {
            let elapsed: u64 = now_ms - self.last_refill_ms;
            if elapsed >= self.refill_time_per_token_ms {
                let gained: u64 = elapsed / self.refill_time_per_token_ms;
                let room: usize = self.capacity - self.token_count;
                if gained >= room as u64 {
                    self.token_count = self.capacity;
                } else {
                    self.token_count = self.token_count + (gained as usize);
                }
                self.last_refill_ms = now_ms;
            }
        }
    }

    /// One check: refill, then consume a token if one is available. The
    /// result says whether the check is allowed.
    pub fn allow(&mut self, now_ms: u64) -> (allowed: bool)
        requires
            old(self).wf(),
        ensures
            allowed == spec_allowed(*old(self), now_ms),
            *final(self) == spec_allow_bucket(*old(self), now_ms),
            final(self).wf(),
    {
        self.refill(now_ms);
        if self.token_count > 0 {
            self.token_count = self.token_count - 1;
            true
        } else {
            false
        }
    }
}

proof fn lemma_div_at_least_one(d: int, c: int)
    requires
        1 <= c <= d,
    ensures
        1 <= d / c,
{
    assert(1 <= d / c) by (nonlinear_arith)
        requires
            1 <= c <= d,
    ;
}

/// The bucket after `n` consecutive checks, all at the instant `now_ms`.
pub open spec fn allow_n(b: RateBucket, now_ms: u64, n: nat) -> RateBucket
    decreases n,
{
    if n == 0 {
        b
    } else {
        spec_allow_bucket(allow_n(b, now_ms, (n - 1) as nat), now_ms)
    }
}

/// A fresh bucket allows exactly its capacity of consecutive checks at one
/// instant: after `n` checks the count stands at `capacity - n` (floored
/// at zero), and the next check succeeds precisely while `n` is below the
/// capacity.
pub proof fn lemma_fresh_bucket_allows_exactly_capacity(limit: RateLimit, now_ms: u64, n: nat)
    requires
        limit.wf(),
    ensures
        ({
            let bn = allow_n(spec_fresh_bucket(limit, now_ms), now_ms, n);
            &&& bn.capacity == limit.capacity
            &&& bn.refill_time_per_token_ms == spec_fresh_bucket(
                limit,
                now_ms,
            ).refill_time_per_token_ms
            &&& bn.last_refill_ms == now_ms
            &&& bn.token_count == if n <= limit.capacity {
                limit.capacity - n
            } else {
                0
            }
            &&& (spec_allowed(bn, now_ms) <==> n < limit.capacity)
        }),
    decreases n,
{
    lemma_div_at_least_one(limit.refill_duration_ms as int, limit.capacity as int);
    if n > 0 {
        lemma_fresh_bucket_allows_exactly_capacity(limit, now_ms, (n - 1) as nat);
    }
}

/// One token's worth of waiting after exhaustion earns exactly one more
/// successful check; the one after it, at the same instant, is denied
/// again.
pub proof fn lemma_one_token_after_exhaustion(b: RateBucket, now_ms: u64)
    requires
        b.wf(),
        b.token_count == 0,
        now_ms == b.last_refill_ms + b.refill_time_per_token_ms,
    ensures
        spec_allowed(b, now_ms),
        spec_allow_bucket(b, now_ms).token_count == 0,
        !spec_allowed(spec_allow_bucket(b, now_ms), now_ms),
{
    let rt = b.refill_time_per_token_ms as int;
    assert(rt / rt == 1) by (nonlinear_arith)
        requires
            1 <= rt,
    ;
}

/// One step of driving a bucket: a check (refill and consume) or a bare
/// refill, at some instant.
pub open spec fn fold_ops(b: RateBucket, ops: Seq<(bool, u64)>) -> RateBucket
    decreases ops.len(),
{
    if ops.len() == 0 {
        b
    } else {
        let p = fold_ops(b, ops.drop_last());
        if ops.last().0 {
            spec_allow_bucket(p, ops.last().1)
        } else {
            spec_refill(p, ops.last().1)
        }
    }
}

/// However a bucket is driven — any sequence of checks and refills at any
/// instants, in any order — the token count stays between zero and the
/// capacity, and the static parameters never change.
pub proof fn lemma_token_count_always_bounded(b: RateBucket, ops: Seq<(bool, u64)>)
    requires
        b.wf(),
    ensures
        fold_ops(b, ops).wf(),
        0 <= fold_ops(b, ops).token_count <= b.capacity,
        fold_ops(b, ops).capacity == b.capacity,
        fold_ops(b, ops).refill_time_per_token_ms == b.refill_time_per_token_ms,
    decreases ops.len(),
{
    if ops.len() > 0 {
        lemma_token_count_always_bounded(b, ops.drop_last());
    }
}

/// One cached bucket, keyed by the identity and the resource kind.
#[derive(Clone, Copy, Debug, PartialEq, Eq, Structural)]
pub struct BucketEntry {
    pub user_id: UserId,
    pub kind_id: u64,
    pub bucket: RateBucket,
}

/// The cache key of an entry.
pub open spec fn key_of(e: BucketEntry) -> (int, int) {
    (e.user_id.0 as int, e.kind_id as int)
}

/// The association from keys to buckets that a sequence of entries holds;
/// a later entry for the same key wins.
pub open spec fn map_of(s: Seq<BucketEntry>) -> Map<(int, int), RateBucket>
    decreases s.len(),
{
    if s.len() == 0 {
        Map::empty()
    } else {
        map_of(s.drop_last()).insert(key_of(s.last()), s.last().bucket)
    }
}

/// Entries with pairwise distinct keys and well-formed buckets.
pub open spec fn entries_wf(s: Seq<BucketEntry>) -> bool {
    &&& forall|i: int, j: int|
        0 <= i < j < s.len() ==> key_of(s[i]) != key_of(s[j])
    &&& forall|i: int| 0 <= i < s.len() ==> (#[trigger] s[i].bucket).wf()
}

proof fn lemma_map_of_entry(s: Seq<BucketEntry>, k: (int, int))
    ensures
        map_of(s).dom().contains(k) <==> exists|i: int| 0 <= i < s.len() && key_of(#[trigger] s[i])
            == k,
    decreases s.len(),
{
    if s.len() > 0 {
        lemma_map_of_entry(s.drop_last(), k);
        if key_of(s.last()) == k {
            assert(key_of(s[s.len() - 1]) == k);
        } else if map_of(s).dom().contains(k) {
            let i = choose|i: int| 0 <= i < s.drop_last().len() && key_of(#[trigger] s.drop_last()[i]) == k;
            assert(key_of(s[i]) == k);
        } else {
            assert forall|i: int| 0 <= i < s.len() implies key_of(#[trigger] s[i]) != k by {
                if i < s.len() - 1 {
                    assert(s.drop_last()[i] == s[i]);
                }
            }
        }
    }
}

proof fn lemma_map_of_lookup(s: Seq<BucketEntry>, i: int)
    requires
        entries_wf(s),
        0 <= i < s.len(),
    ensures
        map_of(s).dom().contains(key_of(s[i])),
        map_of(s)[key_of(s[i])] == s[i].bucket,
    decreases s.len(),
{
    if i == s.len() - 1 {
    } else {
        assert(entries_wf(s.drop_last()));
        assert(s.drop_last()[i] == s[i]);
        lemma_map_of_lookup(s.drop_last(), i);
        assert(key_of(s[i]) != key_of(s.last()));
    }
}

proof fn lemma_map_of_push(s: Seq<BucketEntry>, e: BucketEntry)
    ensures
        map_of(s.push(e)) == map_of(s).insert(key_of(e), e.bucket),
{
    assert(s.push(e).drop_last() =~= s);
    assert(s.push(e).last() == e);
}

proof fn lemma_map_of_update(s: Seq<BucketEntry>, i: int, e: BucketEntry)
    requires
        entries_wf(s),
        0 <= i < s.len(),
        key_of(e) == key_of(s[i]),
    ensures
        map_of(s.update(i, e)) == map_of(s).insert(key_of(e), e.bucket),
    decreases s.len(),
{
    if i == s.len() - 1 {
        assert(s.update(i, e).drop_last() =~= s.drop_last());
        assert(s.update(i, e).last() == e);
        assert(map_of(s).insert(key_of(e), e.bucket) =~= map_of(s.drop_last()).insert(
            key_of(e),
            e.bucket,
        ));
    } else {
        assert(entries_wf(s.drop_last()));
        assert(s.drop_last()[i] == s[i]);
        lemma_map_of_update(s.drop_last(), i, e);
        assert(s.update(i, e).drop_last() =~= s.drop_last().update(i, e));
        assert(s.update(i, e).last() == s.last());
        assert(key_of(e) != key_of(s.last()));
        assert(map_of(s.drop_last()).insert(key_of(e), e.bucket).insert(
            key_of(s.last()),
            s.last().bucket,
        ) =~= map_of(s).insert(key_of(e), e.bucket));
    }
}

/// The in-memory registry of buckets: a write-through cache over the
/// durable records, one independently evolving bucket per (identity,
/// resource kind) pair. Viewed as the map from pairs to buckets.
#[derive(Debug)]
pub struct RateLimiter {
    buckets: Vec<BucketEntry>,
}

impl View for RateLimiter {
    type V = Map<(int, int), RateBucket>;

    closed spec fn view(&self) -> Map<(int, int), RateBucket> {
        map_of(self.buckets@)
    }
}

impl RateLimiter {
    /// The registry invariant: one entry per pair, each bucket well
    /// formed.
    pub closed spec fn wf(self) -> bool {
        entries_wf(self.buckets@)
    }

    /// An empty registry: no pair has been seen yet.
    pub fn new() -> (r: RateLimiter)
        ensures
            r.wf(),
            r@ == Map::<(int, int), RateBucket>::empty(),
    {
        RateLimiter { buckets: Vec::new() }
    }

    fn find_index(&self, user_id: UserId, kind_id: u64) -> (r: Option<usize>)
        requires
            self.wf(),
        ensures
            match r {
                Some(i) => i < self.buckets@.len() && key_of(self.buckets@[i as int]) == (
                    user_id.0 as int,
                    kind_id as int,
                ),
                None => !self@.dom().contains((user_id.0 as int, kind_id as int)),
            },
    {
        let n = self.buckets.len();
        let mut i: usize = 0;
        while i < n
            invariant
                i <= n,
                n == self.buckets@.len(),
                forall|j: int|
                    0 <= j < i ==> key_of(#[trigger] self.buckets@[j]) != (
                        user_id.0 as int,
                        kind_id as int,
                    ),
            decreases n - i,
        {
            let e = &self.buckets[i];
            if e.user_id == user_id && e.kind_id == kind_id {
                return Some(i);
            }
            i = i + 1;
        }
        proof {
            lemma_map_of_entry(self.buckets@, (user_id.0 as int, kind_id as int));
        }
        None
    }

    /// Whether the pair already has a cached bucket (when it does not, the
    /// caller may consult the durable store and `hydrate` first).
    pub fn is_cached(&self, user_id: UserId, kind_id: u64) -> (r: bool)
        requires
            self.wf(),
        ensures
            r == self@.dom().contains((user_id.0 as int, kind_id as int)),
    {
        match self.find_index(user_id, kind_id) {
            Some(i) => {
                proof {
                    lemma_map_of_lookup(self.buckets@, i as int);
                }
                true
            },
            None => false,
        }
    }

    /// Installs the bucket reconstructed from a persisted record, unless
    /// the pair is already cached — a cached bucket always wins, so two
    /// racing first accesses converge on a single bucket.
    pub fn hydrate(&mut self, user_id: UserId, limit: &RateLimit, stored: StoredBucket)
        requires
            old(self).wf(),
            limit.wf(),
        ensures
            final(self).wf(),
            ({
                let key = (user_id.0 as int, limit.kind_id as int);
                final(self)@ == if old(self)@.dom().contains(key) {
                    old(self)@
                } else {
                    old(self)@.insert(key, spec_hydrated_bucket(*limit, stored))
                }
            }),
    {
        match self.find_index(user_id, limit.kind_id) {
            Some(i) => {
                proof {
                    lemma_map_of_lookup(self.buckets@, i as int);
                }
            },
            None => {
                proof {
                    lemma_div_at_least_one(limit.refill_duration_ms as int, limit.capacity as int);
                }
                let cap = limit.capacity;
                let tc = if stored.token_count >= cap {
                    cap
                } else {
                    stored.token_count
                };
                let b = RateBucket {
                    capacity: cap,
                    token_count: tc,
                    refill_time_per_token_ms: limit.refill_duration_ms / (cap as u64),
                    last_refill_ms: stored.last_refill_ms,
                };
                let e = BucketEntry { user_id, kind_id: limit.kind_id, bucket: b };
                proof {
                    lemma_map_of_entry(self.buckets@, key_of(e));
                    lemma_map_of_push(self.buckets@, e);
                }
                self.buckets.push(e);
            },
        }
    }

    /// One quota check for the pair at `now_ms`. Creates the bucket at
    /// full capacity if the pair has no cached bucket (hydration, if any,
    /// must have happened before), refills and consumes, and returns the
    /// decision together with the post-check snapshot for the caller to
    /// persist. Buckets of all other pairs are untouched.
    pub fn check(&mut self, user_id: UserId, limit: &RateLimit, now_ms: u64) -> (r: (
        Result<(), RateLimited>,
        StoredBucket,
    ))
        requires
            old(self).wf(),
            limit.wf(),
        ensures
            final(self).wf(),
            ({
                let key = (user_id.0 as int, limit.kind_id as int);
                let start = if old(self)@.dom().contains(key) {
                    old(self)@[key]
                } else {
                    spec_fresh_bucket(*limit, now_ms)
                };
                let ended = spec_allow_bucket(start, now_ms);
                &&& final(self)@ == old(self)@.insert(key, ended)
                &&& r.0 == (if spec_allowed(start, now_ms) {
                    Ok::<(), RateLimited>(())
                } else {
                    Err::<(), RateLimited>(RateLimited)
                })
                &&& r.1 == (StoredBucket {
                    token_count: ended.token_count,
                    last_refill_ms: ended.last_refill_ms,
                })
            }),
    {
        let ghost key = (user_id.0 as int, limit.kind_id as int);
        let idx: usize;
        match self.find_index(user_id, limit.kind_id) {
            Some(i) => {
                idx = i;
                proof {
                    lemma_map_of_lookup(self.buckets@, i as int);
                }
            },
            None => {
                idx = self.buckets.len();
                let b = RateBucket::new(limit.capacity, limit.refill_duration_ms, now_ms);
                let e = BucketEntry { user_id, kind_id: limit.kind_id, bucket: b };
                proof {
                    lemma_map_of_entry(self.buckets@, key_of(e));
                    lemma_map_of_push(self.buckets@, e);
                }
                self.buckets.push(e);
            },
        }
        let ghost pre = self.buckets@;
        let mut e = self.buckets[idx];
        let allowed = e.bucket.allow(now_ms);
        self.buckets[idx] = e;
        proof {
            assert(entries_wf(pre));
            lemma_map_of_update(pre, idx as int, e);
            lemma_map_of_lookup(pre, idx as int);
            assert(entries_wf(self.buckets@)) by {
                assert(forall|j: int|
                    0 <= j < pre.len() && j != idx ==> self.buckets@[j] == pre[j]);
                assert(key_of(self.buckets@[idx as int]) == key_of(pre[idx as int]));
            }
            assert(self@ =~= old(self)@.insert(key, spec_allow_bucket(
                if old(self)@.dom().contains(key) {
                    old(self)@[key]
                } else {
                    spec_fresh_bucket(*limit, now_ms)
                },
                now_ms,
            )));
        }
        let snap = StoredBucket { token_count: e.bucket.token_count, last_refill_ms: e.bucket.last_refill_ms };
        if allowed {
            (Ok(()), snap)
        } else {
            (Err(RateLimited), snap)
        }
    }
}

} // verus!
