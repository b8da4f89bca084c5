//! Concurrency limits per key, and the merging of key, model and provider
//! limits.
use vstd::prelude::*;

use crate::snapshot::{CompiledSnapshot, ResolvedLimits};
use crate::storage::RedisPool;
use crate::strmap::StrMap;
use crate::text::concat;
use crate::types::{ErrorKind, GatewayError};

verus! {

/// Counts the requests in flight for each key.
#[derive(Debug)]
pub struct ConcurrencyLimiter {
    in_flight: StrMap<u64>,
}

/// A held slot; `key` is `None` when no limit applied.
#[derive(Debug)]
pub struct ConcurrencyGuard {
    pub key: Option<String>,
}

/// `after` counts one more request in flight for `key` than `before`, and
/// as many for every other key.
pub open spec fn took_slot(before: ConcurrencyLimiter, after: ConcurrencyLimiter, key: Seq<char>) -> bool {
    &&& after.count(key) == before.count(key) + 1
    &&& forall|k: Seq<char>| k != key ==> after.count(k) == before.count(k)
}

/// `after` counts one request fewer in flight for `key` than `before` (none
/// when there were none), and as many for every other key.
pub open spec fn gave_back_slot(before: ConcurrencyLimiter, after: ConcurrencyLimiter, key: Seq<char>) -> bool {
    &&& after.count(key) == (if before.count(key) > 0 {
        (before.count(key) - 1) as nat
    } else {
        0
    })
    &&& forall|k: Seq<char>| k != key ==> after.count(k) == before.count(k)
}

/// `after` counts as many requests in flight as `before`, for every key.
pub open spec fn same_counts(before: ConcurrencyLimiter, after: ConcurrencyLimiter) -> bool {
    forall|k: Seq<char>| after.count(k) == before.count(k)
}

impl ConcurrencyLimiter {
    /// Well-formedness of the counters.
    pub closed spec fn wf(&self) -> bool {
        self.in_flight.wf()
    }

    /// The number of requests in flight for `key`.
    pub closed spec fn count(&self, key: Seq<char>) -> nat {
        if self.in_flight@.contains_key(key) {
            self.in_flight@[key] as nat
        } else {
            0
        }
    }

    /// A limiter with nothing in flight.
    pub fn new() -> (l: Self)
        ensures
            l.wf(),
            forall|k: Seq<char>| l.count(k) == 0,
    {
        ConcurrencyLimiter { in_flight: StrMap::new() }
    }

    /// Takes a slot for `key` when it has fewer than `limit` in flight.
    /// Without a limit, nothing is counted.
    pub fn acquire(&mut self, key: String, limit: Option<u64>) -> (res: Result<
        ConcurrencyGuard,
        GatewayError,
    >)
        requires
            old(self).wf(),
        ensures
            final(self).wf(),
            match limit {
                None => res matches Ok(g) && g.key is None && same_counts(*old(self), *final(self)),
                Some(l) => if old(self).count(key@) >= l {
                    res matches Err(e) && e.kind == ErrorKind::RateLimited && e.message@
                        == "concurrency limit exceeded"@ && same_counts(*old(self), *final(self))
                } else {
                    res matches Ok(g) && g.key == Some(key) && took_slot(
                        *old(self),
                        *final(self),
                        key@,
                    )
                },
            },
    {
        let limit = match limit {
            None => {
                return Ok(ConcurrencyGuard { key: None });
            },
            Some(l) => l,
        };
        let current: u64 = match self.in_flight.get(key.as_str()) {
            Some(c) => *c,
            None => {
                self.in_flight.insert(key.clone(), 0);
                0
            },
        };
        if current >= limit {
            return Err(
                GatewayError {
                    kind: ErrorKind::RateLimited,
                    message: "concurrency limit exceeded".to_string(),
                },
            );
        }
        self.in_flight.insert(key.clone(), current + 1);
        Ok(ConcurrencyGuard { key: Some(key) })
    }

    /// Gives back the slot that `guard` holds.
    pub fn release(&mut self, guard: ConcurrencyGuard)
        requires
            old(self).wf(),
        ensures
            final(self).wf(),
            match guard.key {
                None => same_counts(*old(self), *final(self)),
                Some(key) => gave_back_slot(*old(self), *final(self), key@),
            },
    {
        let key = match guard.key {
            None => {
                return;
            },
            Some(k) => k,
        };
        let current: u64 = match self.in_flight.get(key.as_str()) {
            Some(c) => *c,
            None => {
                return;
            },
        };
        let next = if current > 0 {
            current - 1
        } else {
            0
        };
        if next == 0 {
            self.in_flight.remove(key.as_str());
        } else {
            self.in_flight.insert(key, next);
        }
    }
}

/// Taking a slot for a key and giving it back leaves every count as it was.
pub proof fn lemma_acquire_release_restores(
    before: ConcurrencyLimiter,
    during: ConcurrencyLimiter,
    after: ConcurrencyLimiter,
    key: Seq<char>,
)
    requires
        took_slot(before, during, key),
        gave_back_slot(during, after, key),
    ensures
        same_counts(before, after),
{
}

/// With `n` slots for a key and none held, `n` acquisitions in a row each
/// find fewer than `n` in flight, so each is granted; after them `n` are in
/// flight, so the next is refused, and no other key's count has moved.
pub proof fn lemma_limit_admits_exactly(states: Seq<ConcurrencyLimiter>, key: Seq<char>, n: nat)
    requires
        states.len() == n + 1,
        states[0].count(key) == 0,
        forall|i: int| 0 <= i < n ==> took_slot(#[trigger] states[i], states[i + 1], key),
    ensures
        forall|i: int| 0 <= i <= n ==> #[trigger] states[i].count(key) == i,
        forall|i: int| 0 <= i < n ==> #[trigger] states[i].count(key) < n,
        states[n as int].count(key) == n,
        forall|k: Seq<char>| k != key ==> states[n as int].count(k) == states[0].count(k),
    decreases n,
{
    if n > 0 {
        let earlier = states.drop_last();
        assert forall|i: int| 0 <= i < n - 1 implies took_slot(#[trigger] earlier[i], earlier[i + 1], key) by {
            assert(took_slot(states[i], states[i + 1], key));
        }
        lemma_limit_admits_exactly(earlier, key, (n - 1) as nat);
        assert(took_slot(states[n - 1], states[n as int], key));
        assert forall|i: int| 0 <= i <= n implies #[trigger] states[i].count(key) == i by {
            if i < n {
                assert(earlier[i] == states[i]);
            }
        }
        assert forall|k: Seq<char>| k != key implies states[n as int].count(k) == states[0].count(k) by {
            assert(earlier[n - 1] == states[n - 1]);
            assert(earlier[0] == states[0]);
        }
    }
}

/// Giving back, one by one, the `n` slots that a key holds leaves one fewer
/// in flight after each, so after the first the next acquisition under a
/// limit of `n` is granted again; after the last none are in flight.  No
/// other key's count moves.
pub proof fn lemma_releases_free_slots(states: Seq<ConcurrencyLimiter>, key: Seq<char>, n: nat)
    requires
        states.len() == n + 1,
        states[0].count(key) == n,
        forall|i: int| 0 <= i < n ==> gave_back_slot(#[trigger] states[i], states[i + 1], key),
    ensures
        forall|i: int| 0 <= i <= n ==> #[trigger] states[i].count(key) == n - i,
        states[n as int].count(key) == 0,
        forall|k: Seq<char>| k != key ==> states[n as int].count(k) == states[0].count(k),
{
    lemma_releases_free_slots_from(states, key, n, n);
}

/// `m` of the `n` slots of a key given back one by one.
proof fn lemma_releases_free_slots_from(states: Seq<ConcurrencyLimiter>, key: Seq<char>, n: nat, m: nat)
    requires
        m <= n,
        states.len() == m + 1,
        states[0].count(key) == n,
        forall|i: int| 0 <= i < m ==> gave_back_slot(#[trigger] states[i], states[i + 1], key),
    ensures
        forall|i: int| 0 <= i <= m ==> #[trigger] states[i].count(key) == n - i,
        forall|k: Seq<char>| k != key ==> states[m as int].count(k) == states[0].count(k),
    decreases m,
{
    if m > 0 {
        let earlier = states.drop_last();
        assert forall|i: int| 0 <= i < m - 1 implies gave_back_slot(
            #[trigger] earlier[i],
            earlier[i + 1],
            key,
        ) by {
            assert(gave_back_slot(states[i], states[i + 1], key));
        }
        assert(earlier[0] == states[0]);
        lemma_releases_free_slots_from(earlier, key, n, (m - 1) as nat);
        assert(gave_back_slot(states[m - 1], states[m as int], key));
        assert(earlier[m - 1] == states[m - 1]);
        assert forall|i: int| 0 <= i <= m implies #[trigger] states[i].count(key) == n - i by {
            if i < m {
                assert(earlier[i] == states[i]);
            }
        }
    }
}

/// The first of the three options that is set.
pub open spec fn first_set(a: Option<u64>, b: Option<u64>, c: Option<u64>) -> Option<u64> {
    if a is Some {
        a
    } else if b is Some {
        b
    } else {
        c
    }
}

/// A limit that `m` holds for `k`, if any.
pub open spec fn limit_field(
    m: Map<Seq<char>, ResolvedLimits>,
    k: Seq<char>,
    field: spec_fn(ResolvedLimits) -> Option<u64>,
) -> Option<u64> {
    if m.contains_key(k) {
        field(m[k])
    } else {
        None
    }
}

/// The limits of one request: each limit comes from the key, else the
/// model, else the provider.
pub open spec fn request_limits(
    snapshot: CompiledSnapshot,
    key_id: Seq<char>,
    model: Seq<char>,
    provider: Seq<char>,
) -> ResolvedLimits {
    let rpm = |l: ResolvedLimits| l.rpm;
    let tpm = |l: ResolvedLimits| l.tpm;
    let conc = |l: ResolvedLimits| l.concurrency;
    ResolvedLimits {
        rpm: first_set(
            limit_field(snapshot.key_limits@, key_id, rpm),
            limit_field(snapshot.model_limits@, model, rpm),
            limit_field(snapshot.provider_limits@, provider, rpm),
        ),
        tpm: first_set(
            limit_field(snapshot.key_limits@, key_id, tpm),
            limit_field(snapshot.model_limits@, model, tpm),
            limit_field(snapshot.provider_limits@, provider, tpm),
        ),
        concurrency: first_set(
            limit_field(snapshot.key_limits@, key_id, conc),
            limit_field(snapshot.model_limits@, model, conc),
            limit_field(snapshot.provider_limits@, provider, conc),
        ),
    }
}

/// Each limit of a request comes from the key when the key sets it, else
/// from the model when the model sets it, else from the provider; with none
/// of them setting it there is no limit.
pub proof fn lemma_limit_precedence(
    snapshot: CompiledSnapshot,
    key_id: Seq<char>,
    model: Seq<char>,
    provider: Seq<char>,
)
    ensures
        ({
            let r = request_limits(snapshot, key_id, model, provider);
            let k = snapshot.key_limits@;
            let m = snapshot.model_limits@;
            let p = snapshot.provider_limits@;
            let key_rpm = k.contains_key(key_id) && k[key_id].rpm is Some;
            let model_rpm = m.contains_key(model) && m[model].rpm is Some;
            let key_tpm = k.contains_key(key_id) && k[key_id].tpm is Some;
            let model_tpm = m.contains_key(model) && m[model].tpm is Some;
            let key_conc = k.contains_key(key_id) && k[key_id].concurrency is Some;
            let model_conc = m.contains_key(model) && m[model].concurrency is Some;
            &&& key_rpm ==> r.rpm == k[key_id].rpm
            &&& !key_rpm && model_rpm ==> r.rpm == m[model].rpm
            &&& !key_rpm && !model_rpm && p.contains_key(provider) ==> r.rpm == p[provider].rpm
            &&& !key_rpm && !model_rpm && !p.contains_key(provider) ==> r.rpm is None
            &&& key_tpm ==> r.tpm == k[key_id].tpm
            &&& !key_tpm && model_tpm ==> r.tpm == m[model].tpm
            &&& !key_tpm && !model_tpm && p.contains_key(provider) ==> r.tpm == p[provider].tpm
            &&& !key_tpm && !model_tpm && !p.contains_key(provider) ==> r.tpm is None
            &&& key_conc ==> r.concurrency == k[key_id].concurrency
            &&& !key_conc && model_conc ==> r.concurrency == m[model].concurrency
            &&& !key_conc && !model_conc && p.contains_key(provider) ==> r.concurrency
                == p[provider].concurrency
            &&& !key_conc && !model_conc && !p.contains_key(provider) ==> r.concurrency is None
        }),
{
}

/// The limits that apply to a request of `key_id` for `model_name` served by
/// `provider_id`.
pub fn resolve_request_limits(
    snapshot: &CompiledSnapshot,
    key_id: &str,
    model_name: &str,
    provider_id: &str,
) -> (r: ResolvedLimits)
    requires
        snapshot.wf(),
    ensures
        r == request_limits(*snapshot, key_id@, model_name@, provider_id@),
{
    let key_limits = snapshot.key_limits.get(key_id);
    let model_limits = snapshot.model_limits.get(model_name);
    let provider_limits = snapshot.provider_limits.get(provider_id);
    let none = ResolvedLimits { rpm: None, tpm: None, concurrency: None };
    let k = match key_limits {
        Some(l) => *l,
        None => none,
    };
    let m = match model_limits {
        Some(l) => *l,
        None => none,
    };
    let p = match provider_limits {
        Some(l) => *l,
        None => none,
    };
    ResolvedLimits {
        rpm: if k.rpm.is_some() {
            k.rpm
        } else if m.rpm.is_some() {
            m.rpm
        } else {
            p.rpm
        },
        tpm: if k.tpm.is_some() {
            k.tpm
        } else if m.tpm.is_some() {
            m.tpm
        } else {
            p.tpm
        },
        concurrency: if k.concurrency.is_some() {
            k.concurrency
        } else if m.concurrency.is_some() {
            m.concurrency
        } else {
            p.concurrency
        },
    }
}

/// A requests-per-minute check that remains to be made against the
/// shared counter store.
#[derive(Debug, Clone, PartialEq, Eq)]
pub struct RpmCheck {
    pub counter_key: String,
    pub rpm: u64,
}

impl RpmCheck {
    /// The counter of this check for one minute: `{counter_key}:{minute}`.
    pub fn window_key(&self, minute_bucket: u64) -> (k: String)
        ensures
            k@ == self.counter_key@ + seq![':'] + crate::text::decimal(minute_bucket as nat),
    {
        let mut text = crate::text::str_chars(self.counter_key.as_str());
        text.push(':');
        let digits = crate::text::u64_to_decimal(minute_bucket);
        crate::text::append_chars(&mut text, &digits);
        crate::text::string_from_chars(&text)
    }

    /// Whether the `count`th request of a minute is over the limit.
    pub fn exceeded(&self, count: u64) -> (res: bool)
        ensures
            res == (count > self.rpm),
    {
        count > self.rpm
    }
}

/// The counter that a key's requests per minute are counted under.
pub open spec fn rpm_counter_key(key_id: Seq<char>) -> Seq<char> {
    "ratelimit:rpm:key:"@ + key_id
}

/// One more request counted; a count that reached the largest `u64` stays.
pub open spec fn bumped(n: nat) -> nat {
    if n < u64::MAX {
        n + 1
    } else {
        n
    }
}

/// The gateway's rate limiter: concurrency slots and the local per-minute
/// counts are held here; a shared store, when there is one, holds the
/// per-minute counts that all gateways share, and is read by the caller.
#[derive(Debug)]
pub struct RateLimitService {
    redis: Option<RedisPool>,
    concurrency: ConcurrencyLimiter,
    /// For each counter, the minute it last counted in and its count there.
    local_windows: StrMap<(u64, u64)>,
}

impl RateLimitService {
    /// Well-formedness of the service.
    pub closed spec fn wf(&self) -> bool {
        self.concurrency.wf() && self.local_windows.wf()
    }

    /// The number of requests in flight for `key`.
    pub closed spec fn in_flight(&self, key: Seq<char>) -> nat {
        self.concurrency.count(key)
    }

    /// The requests counted locally under `counter` in `minute`.
    pub closed spec fn local_count(&self, counter: Seq<char>, minute: u64) -> nat {
        if self.local_windows@.contains_key(counter) && self.local_windows@[counter].0 == minute {
            self.local_windows@[counter].1 as nat
        } else {
            0
        }
    }

    /// The shared store that request rates are counted in, if any.
    pub closed spec fn shared_store(&self) -> Option<RedisPool> {
        self.redis
    }

    /// The shared store, if any.
    pub fn redis(&self) -> (r: &Option<RedisPool>)
        ensures
            *r == self.shared_store(),
    {
        &self.redis
    }

    /// A service with nothing in flight and nothing counted.
    pub fn new(redis: Option<RedisPool>) -> (s: Self)
        ensures
            s.wf(),
            s.shared_store() == redis,
            forall|k: Seq<char>| s.in_flight(k) == 0,
            forall|c: Seq<char>, m: u64| s.local_count(c, m) == 0,
    {
        RateLimitService {
            redis,
            concurrency: ConcurrencyLimiter::new(),
            local_windows: StrMap::new(),
        }
    }

    /// Counts one request under `counter` in `minute` and returns the count.
    /// A counter keeps one minute only: counting in another minute starts
    /// again from one.
    fn count_locally(&mut self, counter: &String, minute: u64) -> (n: u64)
        requires
            old(self).wf(),
        ensures
            final(self).wf(),
            final(self).redis == old(self).redis,
            final(self).concurrency == old(self).concurrency,
            n == bumped(old(self).local_count(counter@, minute)),
            final(self).local_count(counter@, minute) == n,
            forall|m: u64| m != minute ==> final(self).local_count(counter@, m) == 0,
            forall|c: Seq<char>, m: u64|
                c != counter@ ==> final(self).local_count(c, m) == old(self).local_count(c, m),
    {
        let current: u64 = match self.local_windows.get(counter.as_str()) {
            Some(w) => if w.0 == minute {
                w.1
            } else {
                0
            },
            None => 0,
        };
        let next = if current < u64::MAX {
            current + 1
        } else {
            current
        };
        self.local_windows.insert(counter.clone(), (minute, next));
        next
    }

    /// The checks made before a request goes upstream.  First a concurrency
    /// slot for the key; then, where a per-minute limit applies, the count
    /// of the key's requests in `minute` under `ratelimit:rpm:key:{key_id}`.
    /// Without a shared store the request is counted here and refused when
    /// the count is over the limit; with one, the check is handed back for
    /// the caller to count in the shared store and settle with
    /// `settle_rpm`.  A refused request holds no slot.
    pub fn precheck(
        &mut self,
        snapshot: &CompiledSnapshot,
        key_id: &str,
        model_name: &str,
        provider_id: &str,
        minute: u64,
    ) -> (res: Result<(ConcurrencyGuard, Option<RpmCheck>), GatewayError>)
        requires
            old(self).wf(),
            snapshot.wf(),
        ensures
            final(self).wf(),
            final(self).shared_store() == old(self).shared_store(),
            forall|k: Seq<char>| k != key_id@ ==> final(self).in_flight(k) == old(self).in_flight(k),
            forall|c: Seq<char>, m: u64|
                c != rpm_counter_key(key_id@) ==> final(self).local_count(c, m) == old(
                    self,
                ).local_count(c, m),
            res is Err ==> final(self).in_flight(key_id@) == old(self).in_flight(key_id@),
            ({
                let limits = request_limits(*snapshot, key_id@, model_name@, provider_id@);
                let counter = rpm_counter_key(key_id@);
                let slot_free = match limits.concurrency {
                    Some(l) => old(self).in_flight(key_id@) < l,
                    None => true,
                };
                let counted_here = limits.rpm is Some && old(self).shared_store() is None;
                let next = bumped(old(self).local_count(counter, minute));
                &&& !slot_free ==> (res matches Err(e) && e.kind == ErrorKind::RateLimited
                    && e.message@ == "concurrency limit exceeded"@)
                &&& (!slot_free || !counted_here) ==> forall|m: u64|
                    final(self).local_count(counter, m) == old(self).local_count(counter, m)
                &&& (slot_free && counted_here) ==> {
                    &&& final(self).local_count(counter, minute) == next
                    &&& forall|m: u64| m != minute ==> final(self).local_count(counter, m) == 0
                }
                &&& (slot_free && counted_here && next > limits.rpm->0) ==> (res matches Err(e)
                    && e.kind == ErrorKind::RateLimited && e.message@
                    == "request rate limit exceeded"@)
                &&& (slot_free && !(counted_here && next > limits.rpm->0)) ==> (res matches Ok(
                    (g, check),
                ) && (match limits.concurrency {
                    Some(_) => g.key matches Some(k) && k@ == key_id@ && final(self).in_flight(
                        key_id@,
                    ) == old(self).in_flight(key_id@) + 1,
                    None => g.key is None && final(self).in_flight(key_id@) == old(
                        self,
                    ).in_flight(key_id@),
                }) && (match limits.rpm {
                    Some(rpm) if old(self).shared_store() is Some => check matches Some(c) && c.rpm
                        == rpm && c.counter_key@ == counter,
                    _ => check is None,
                }))
            }),
    {
        let limits = resolve_request_limits(snapshot, key_id, model_name, provider_id);
        let ghost before = self.concurrency;
        let guard = match self.concurrency.acquire(key_id.to_owned(), limits.concurrency) {
            Ok(g) => g,
            Err(e) => {
                return Err(e);
            },
        };
        let rpm = match limits.rpm {
            Some(rpm) => rpm,
            None => {
                return Ok((guard, None));
            },
        };
        let counter = concat("ratelimit:rpm:key:", key_id);
        if self.redis.is_some() {
            return Ok((guard, Some(RpmCheck { counter_key: counter, rpm })));
        }
        let ghost pre = *self;
        let count = self.count_locally(&counter, minute);
        if count > rpm {
            let ghost during = self.concurrency;
            let ghost counted = *self;
            self.concurrency.release(guard);
            proof {
                assert(self.local_windows == counted.local_windows);
                assert forall|c: Seq<char>, m: u64| c != counter@ implies self.local_count(c, m)
                    == old(self).local_count(c, m) by {
                    assert(counted.local_count(c, m) == pre.local_count(c, m));
                    assert(pre.local_windows == old(self).local_windows);
                }
                assert(self.local_count(counter@, minute) == counted.local_count(counter@, minute));
                assert forall|m: u64| m != minute implies self.local_count(counter@, m) == 0 by {
                    assert(counted.local_count(counter@, m) == 0);
                }
                assert forall|k: Seq<char>| self.concurrency.count(k) == before.count(k) by {
                    if limits.concurrency is Some && k == key_id@ {
                        assert(during.count(k) == before.count(k) + 1);
                    }
                }
            }
            return Err(rate_limited());
        }
        Ok((guard, None))
    }

    /// Settles a per-minute check that `precheck` handed back.  `shared` is
    /// the count that the shared store gave for the request's minute, or
    /// `None` when the store could not be reached; then the request is
    /// counted here instead.  A request over the limit is refused and its
    /// slot given back; otherwise the guard is handed back unchanged.
    pub fn settle_rpm(
        &mut self,
        guard: ConcurrencyGuard,
        check: &RpmCheck,
        minute: u64,
        shared: Option<u64>,
    ) -> (res: Result<ConcurrencyGuard, GatewayError>)
        requires
            old(self).wf(),
        ensures
            final(self).wf(),
            final(self).shared_store() == old(self).shared_store(),
            ({
                let next = bumped(old(self).local_count(check.counter_key@, minute));
                let refused = match shared {
                    Some(n) => n > check.rpm,
                    None => next > check.rpm,
                };
                &&& match shared {
                    Some(_) => forall|c: Seq<char>, m: u64|
                        final(self).local_count(c, m) == old(self).local_count(c, m),
                    None => {
                        &&& final(self).local_count(check.counter_key@, minute) == next
                        &&& forall|m: u64|
                            m != minute ==> final(self).local_count(check.counter_key@, m) == 0
                        &&& forall|c: Seq<char>, m: u64|
                            c != check.counter_key@ ==> final(self).local_count(c, m) == old(
                                self,
                            ).local_count(c, m)
                    },
                }
                &&& refused ==> (res matches Err(e) && e.kind == ErrorKind::RateLimited
                    && e.message@ == "request rate limit exceeded"@)
                &&& !refused ==> (res matches Ok(g) && g.key == guard.key)
                &&& match (refused, guard.key) {
                    (true, Some(key)) => {
                        &&& final(self).in_flight(key@) == (if old(self).in_flight(key@) > 0 {
                            (old(self).in_flight(key@) - 1) as nat
                        } else {
                            0
                        })
                        &&& forall|k: Seq<char>|
                            k != key@ ==> final(self).in_flight(k) == old(self).in_flight(k)
                    },
                    _ => forall|k: Seq<char>| final(self).in_flight(k) == old(self).in_flight(k),
                }
            }),
    {
        let count = match shared {
            Some(n) => n,
            None => self.count_locally(&check.counter_key, minute),
        };
        if count > check.rpm {
            self.concurrency.release(guard);
            return Err(rate_limited());
        }
        Ok(guard)
    }

    /// Gives back a concurrency slot: the guard's key counts one request
    /// fewer in flight (none when it had none), every other key as many as
    /// before; a guard without a key changes nothing.
    pub fn release(&mut self, guard: ConcurrencyGuard)
        requires
            old(self).wf(),
        ensures
            final(self).wf(),
            final(self).shared_store() == old(self).shared_store(),
            forall|c: Seq<char>, m: u64| final(self).local_count(c, m) == old(self).local_count(c, m),
            match guard.key {
                None => forall|k: Seq<char>| final(self).in_flight(k) == old(self).in_flight(k),
                Some(key) => {
                    &&& final(self).in_flight(key@) == (if old(self).in_flight(key@) > 0 {
                        (old(self).in_flight(key@) - 1) as nat
                    } else {
                        0
                    })
                    &&& forall|k: Seq<char>| k != key@ ==> final(self).in_flight(k) == old(
                        self,
                    ).in_flight(k)
                },
            },
    {
        self.concurrency.release(guard);
    }
}

/// The error returned when a request rate limit is exceeded.
pub fn rate_limited() -> (e: GatewayError)
    ensures
        e.kind == ErrorKind::RateLimited,
        e.message@ == "request rate limit exceeded"@,
{
    GatewayError { kind: ErrorKind::RateLimited, message: "request rate limit exceeded".to_string() }
}

} // verus!
