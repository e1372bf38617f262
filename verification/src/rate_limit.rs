//! An in-memory sliding-window rate limiter. Two limits are enforced, each on its
//! own:
//!
//! * per sender within a tenant, against one sender who floods;
//! * per tenant, against a runaway total.
//!
//! Moments are counted in nanoseconds from when the limiter was made.

use vstd::hash_map::StringHashMap;
use vstd::prelude::*;

use crate::circuit_breaker::{configured, number_or};
use crate::clock::{instant_now, nanos_since};
use crate::text::{concat3, decimal, decimal_of, lemma_decimal_reads_back, opt_str_view};

verus! {

/// Messages per sender and window, where nothing else is configured.
pub const DEFAULT_PHONE_LIMIT: u32 = 10;

/// Messages per tenant and window, where nothing else is configured.
pub const DEFAULT_TENANT_LIMIT: u32 = 100;

/// The length of the window in nanoseconds: one minute.
pub const WINDOW: u64 = 60_000_000_000;

/// With more senders than this on record, those without a live message are
/// dropped.
pub const PRUNE_THRESHOLD: usize = 5_000;

/// The time from `t` to `now`, and nothing where `t` is the later one.
pub open spec fn age(now: u64, t: u64) -> int {
    if now >= t {
        now - t
    } else {
        0
    }
}

/// The moments of `times` that lie in the window that ends at `now`.
pub open spec fn live(times: Seq<u64>, now: u64) -> Seq<u64> {
    times.filter(|t: u64| age(now, t) < WINDOW)
}

/// The moments on record under `key`; none where it is unknown.
pub open spec fn recorded(m: Map<Seq<char>, Seq<u64>>, key: Seq<char>) -> Seq<u64> {
    if m.contains_key(key) {
        m[key]
    } else {
        Seq::empty()
    }
}

/// `m` without what has left the window that ends at `now`, and without the keys
/// that have nothing left in it.
pub open spec fn pruned(m: Map<Seq<char>, Seq<u64>>, now: u64) -> Map<Seq<char>, Seq<u64>> {
    Map::new(
        |k: Seq<char>| m.contains_key(k) && live(m[k], now).len() > 0,
        |k: Seq<char>| live(m[k], now),
    )
}

proof fn lemma_filter_push(s: Seq<u64>, x: u64, now: u64)
    ensures
        live(s.push(x), now) == (if age(now, x) < WINDOW {
            live(s, now).push(x)
        } else {
            live(s, now)
        }),
{
    reveal(Seq::filter);
    assert(s.push(x).drop_last() =~= s);
}

/// The moments at which messages passed, oldest first as far as the clock goes.
#[derive(Debug)]
pub struct SlidingWindow {
    pub timestamps: Vec<u64>,
}

impl SlidingWindow {
    pub fn new() -> (r: SlidingWindow)
        ensures
            r.timestamps@ == Seq::<u64>::empty(),
    {
        SlidingWindow { timestamps: Vec::new() }
    }

    /// Drops the moments outside the window that ends at `now`, and counts those
    /// that are left.
    pub fn count_and_prune(&mut self, now: u64) -> (r: u32)
        ensures
            final(self).timestamps@ == live(old(self).timestamps@, now),
            r == final(self).timestamps@.len() as u32,
    {
        let mut kept: Vec<u64> = Vec::new();
        let mut i: usize = 0;
        let ghost all = self.timestamps@;
        proof {
            reveal(Seq::filter);
            assert(live(all.take(0), now) =~= Seq::empty());
        }
        while i < self.timestamps.len()
            invariant
                all == self.timestamps@,
                i <= all.len(),
                kept@ == live(all.take(i as int), now),
            decreases self.timestamps.len() - i,
        {
            let t: u64 = self.timestamps[i];
            let aged: u64 = if now >= t {
                now - t
            } else {
                0
            };
            if aged < WINDOW {
                kept.push(t);
            }
            proof {
                assert(all.take(i + 1) =~= all.take(i as int).push(t));
                lemma_filter_push(all.take(i as int), t, now);
            }
            i = i + 1;
        }
        assert(all.take(all.len() as int) =~= all);
        self.timestamps = kept;
        self.timestamps.len() as u32
    }

    pub fn record(&mut self, now: u64)
        ensures
            final(self).timestamps@ == old(self).timestamps@.push(now),
    {
        self.timestamps.push(now);
    }
}

struct Slot {
    key: String,
    window: SlidingWindow,
}

/// One window per key, none of them with more than `limit` moments.
struct WindowTable {
    index: StringHashMap<usize>,
    slots: Vec<Slot>,
    limit: u32,
}

impl View for WindowTable {
    type V = Map<Seq<char>, Seq<u64>>;

    closed spec fn view(&self) -> Map<Seq<char>, Seq<u64>> {
        Map::new(
            |k: Seq<char>| self.index@.contains_key(k),
            |k: Seq<char>| self.slots@[self.index@[k] as int].window.timestamps@,
        )
    }
}

impl WindowTable {
    spec fn wf(&self) -> bool {
        &&& forall|i: int|
            0 <= i < self.slots@.len() ==> {
                &&& self.index@.contains_key((#[trigger] self.slots@[i]).key@)
                &&& self.index@[self.slots@[i].key@] == i
                &&& self.slots@[i].window.timestamps@.len() <= self.limit
            }
        &&& forall|k: Seq<char>| #[trigger]
            self.index@.contains_key(k) ==> {
                &&& self.index@[k] < self.slots@.len()
                &&& self.slots@[self.index@[k] as int].key@ == k
            }
    }

    fn new(limit: u32) -> (r: WindowTable)
        ensures
            r.wf(),
            r.limit == limit,
            r@ == Map::<Seq<char>, Seq<u64>>::empty(),
    {
        let r = WindowTable { index: StringHashMap::new(), slots: Vec::new(), limit };
        assert(r@ =~= Map::empty());
        r
    }

    fn len(&self) -> (r: usize)
        ensures
            r == self@.len(),
    {
        assert(self@.dom() =~= self.index@.dom());
        self.index.len()
    }

    /// The slot of `key`, which is made where there was none.
    fn slot(&mut self, key: &str) -> (i: usize)
        requires
            old(self).wf(),
        ensures
            final(self).wf(),
            final(self).limit == old(self).limit,
            i < final(self).slots@.len(),
            final(self).slots@[i as int].key@ == key@,
            final(self)@ == old(self)@.insert(key@, recorded(old(self)@, key@)),
    {
        match self.index.get(key) {
            Some(i) => {
                assert(self@ =~= self@.insert(key@, recorded(self@, key@)));
                *i
            },
            None => {
                let i: usize = self.slots.len();
                let ghost before = *self;
                self.slots.push(Slot { key: key.to_owned(), window: SlidingWindow::new() });
                self.index.insert(key.to_owned(), i);
                proof {
                    assert forall|k: Seq<char>| #[trigger] self.index@.contains_key(k) implies {
                        &&& self.index@[k] < self.slots@.len()
                        &&& self.slots@[self.index@[k] as int].key@ == k
                    } by {
                        if k != key@ {
                            assert(before.index@.contains_key(k));
                        }
                    }
                    assert forall|j: int| 0 <= j < self.slots@.len() implies {
                        &&& self.index@.contains_key((#[trigger] self.slots@[j]).key@)
                        &&& self.index@[self.slots@[j].key@] == j
                        &&& self.slots@[j].window.timestamps@.len() <= self.limit
                    } by {
                        if j < i {
                            assert(self.slots@[j] == before.slots@[j]);
                        }
                    }
                    assert forall|k: Seq<char>| before@.contains_key(k) implies #[trigger] self@[k]
                        == before@[k] by {
                        assert(before.index@.contains_key(k));
                    }
                    assert(self@ =~= before@.insert(key@, recorded(before@, key@)));
                }
                i
            },
        }
    }

    /// Drops what has left the window of `key`, and counts what is left in it.
    fn count(&mut self, key: &str, now: u64) -> (r: u32)
        requires
            old(self).wf(),
        ensures
            final(self).wf(),
            final(self).limit == old(self).limit,
            r == live(recorded(old(self)@, key@), now).len(),
            final(self)@ == old(self)@.insert(key@, live(recorded(old(self)@, key@), now)),
    {
        let i: usize = self.slot(key);
        let ghost before = *self;
        assert(before.index@.contains_key(before.slots@[i as int].key@));
        assert(before@[key@] == before.slots@[i as int].window.timestamps@);
        let mut window = SlidingWindow::new();
        std::mem::swap(&mut window, &mut self.slots[i].window);
        proof {
            lemma_live_shorter(window.timestamps@, now);
        }
        let count: u32 = window.count_and_prune(now);
        std::mem::swap(&mut window, &mut self.slots[i].window);
        proof {
            self.lemma_window_replaced(before, i as int);
        }
        count
    }

    /// Records a message of `key` at `now`.
    fn record(&mut self, key: &str, now: u64)
        requires
            old(self).wf(),
            recorded(old(self)@, key@).len() < old(self).limit,
        ensures
            final(self).wf(),
            final(self).limit == old(self).limit,
            final(self)@ == old(self)@.insert(key@, recorded(old(self)@, key@).push(now)),
    {
        let i: usize = self.slot(key);
        let ghost before = *self;
        assert(before.index@.contains_key(before.slots@[i as int].key@));
        assert(before@[key@] == before.slots@[i as int].window.timestamps@);
        let mut window = SlidingWindow::new();
        std::mem::swap(&mut window, &mut self.slots[i].window);
        window.record(now);
        std::mem::swap(&mut window, &mut self.slots[i].window);
        proof {
            self.lemma_window_replaced(before, i as int);
        }
    }

    /// A table in which one window was replaced by one that is within the limit.
    proof fn lemma_window_replaced(&self, before: WindowTable, i: int)
        requires
            before.wf(),
            0 <= i < before.slots@.len(),
            self.index == before.index,
            self.limit == before.limit,
            self.slots@.len() == before.slots@.len(),
            self.slots@[i].key@ == before.slots@[i].key@,
            self.slots@[i].window.timestamps@.len() <= self.limit,
            forall|j: int|
                0 <= j < before.slots@.len() && j != i ==> #[trigger] self.slots@[j]
                    == before.slots@[j],
        ensures
            self.wf(),
            self@ == before@.insert(before.slots@[i].key@, self.slots@[i].window.timestamps@),
    {
        assert forall|j: int| 0 <= j < self.slots@.len() implies {
            &&& self.index@.contains_key((#[trigger] self.slots@[j]).key@)
            &&& self.index@[self.slots@[j].key@] == j
            &&& self.slots@[j].window.timestamps@.len() <= self.limit
        } by {
            assert(self.slots@[j].key@ == before.slots@[j].key@);
        }
        assert forall|k: Seq<char>| #[trigger] self.index@.contains_key(k) implies {
            &&& self.index@[k] < self.slots@.len()
            &&& self.slots@[self.index@[k] as int].key@ == k
        } by {
            assert(before.slots@[before.index@[k] as int].key@ == k);
            assert(self.slots@[before.index@[k] as int].key@ == k);
        }
        let key = before.slots@[i].key@;
        assert(before.index@.contains_key(key));
        assert(self@ =~= before@.insert(key, self.slots@[i].window.timestamps@)) by {
            assert forall|k: Seq<char>| before.index@.contains_key(k) && k != key implies
                #[trigger] self@[k] == before@[k] by {
                assert(before.slots@[before.index@[k] as int].key@ == k);
            }
        }
    }

    /// Drops what has left the window that ends at `now`, and the keys that have
    /// nothing left in it.
    fn retain_live(&mut self, now: u64)
        requires
            old(self).wf(),
        ensures
            final(self).wf(),
            final(self).limit == old(self).limit,
            final(self)@ == pruned(old(self)@, now),
    {
        let ghost before = *self;
        let mut rest: Vec<Slot> = Vec::new();
        std::mem::swap(&mut rest, &mut self.slots);
        self.index.clear();
        proof {
            assert(rest@.take(rest@.len() as int) =~= rest@);
        }
        while rest.len() > 0
            invariant
                before.wf(),
                self.wf(),
                self.limit == before.limit,
                rest@.len() <= before.slots@.len(),
                rest@ == before.slots@.take(rest@.len() as int),
                forall|k: Seq<char>|
                    #![trigger self.index@.contains_key(k)]
                    self.index@.contains_key(k) <==> (before.index@.contains_key(k)
                        && before.index@[k] >= rest@.len() && live(before@[k], now).len() > 0),
                forall|k: Seq<char>| #[trigger]
                    self.index@.contains_key(k) ==> self@[k] == live(before@[k], now),
            decreases rest.len(),
        {
            let ghost here = *self;
            let ghost n = rest@.len() - 1;
            match rest.pop() {
                Some(mut slot) => {
                    proof {
                        assert(slot == before.slots@[n]);
                        assert(before.index@.contains_key(before.slots@[n].key@));
                        assert(before@[slot.key@] == slot.window.timestamps@);
                        lemma_live_shorter(slot.window.timestamps@, now);
                        assert(rest@ =~= before.slots@.take(n));
                        assert forall|k: Seq<char>|
                            before.index@.contains_key(k) && before.index@[k] == n implies k
                            == slot.key@ by {
                            assert(before.slots@[before.index@[k] as int].key@ == k);
                        }
                    }
                    let ghost key = slot.key@;
                    slot.window.count_and_prune(now);
                    if slot.window.timestamps.len() > 0 {
                        let i: usize = self.slots.len();
                        self.index.insert(slot.key.clone(), i);
                        self.slots.push(slot);
                        proof {
                            assert(!here.index@.contains_key(key));
                            assert forall|k: Seq<char>| #[trigger] self.index@.contains_key(k) implies {
                                &&& self.index@[k] < self.slots@.len()
                                &&& self.slots@[self.index@[k] as int].key@ == k
                            } by {
                                if k != key {
                                    assert(here.index@.contains_key(k));
                                }
                            }
                            assert forall|j: int| 0 <= j < self.slots@.len() implies {
                                &&& self.index@.contains_key((#[trigger] self.slots@[j]).key@)
                                &&& self.index@[self.slots@[j].key@] == j
                                &&& self.slots@[j].window.timestamps@.len() <= self.limit
                            } by {
                                if j < i {
                                    assert(self.slots@[j] == here.slots@[j]);
                                }
                            }
                            assert forall|k: Seq<char>| #[trigger]
                                self.index@.contains_key(k) implies self@[k] == live(
                                before@[k],
                                now,
                            ) by {
                                if k != key {
                                    assert(here.index@.contains_key(k));
                                    assert(here@[k] == self@[k]);
                                }
                            }
                        }
                    }
                },
                None => {},
            }
        }
        proof {
            assert forall|k: Seq<char>| self@.contains_key(k) <==> pruned(before@, now).contains_key(
                k,
            ) by {
                assert(self.index@.contains_key(k) <==> self@.contains_key(k));
                assert(before.index@.contains_key(k) <==> before@.contains_key(k));
            }
            assert(self@ =~= pruned(before@, now)) by {
                assert forall|k: Seq<char>| self@.contains_key(k) implies #[trigger] self@[k]
                    == pruned(before@, now)[k] by {
                    assert(self.index@.contains_key(k));
                }
            }
        }
    }
}

#[derive(Debug, Clone, Copy, PartialEq, Eq, Structural)]
pub enum RateLimitDenied {
    Phone,
    Tenant,
}

/// The limiter as its contracts speak of it.
#[verifier::ext_equal]
pub struct Limiter {
    /// The moments on record per sender.
    pub phones: Map<Seq<char>, Seq<u64>>,
    /// The moments on record per tenant.
    pub tenants: Map<Seq<char>, Seq<u64>>,
    pub phone_limit: u32,
    pub tenant_limit: u32,
}

/// The key under which a sender's messages are counted. The length of the tenant id
/// stands first, so that whatever the two ids hold, no other pair has the same key.
pub open spec fn sender_slot(tenant_id: Seq<char>, phone: Seq<char>) -> Seq<char> {
    decimal_of(tenant_id.len()) + ":"@ + tenant_id + ":"@ + phone
}

impl Limiter {
    pub open spec fn fresh(phone_limit: u32, tenant_limit: u32) -> Limiter {
        Limiter { phones: Map::empty(), tenants: Map::empty(), phone_limit, tenant_limit }
    }

    /// No window holds more than its limit.
    pub open spec fn bounded(self) -> bool {
        &&& forall|k: Seq<char>| #[trigger]
            self.phones.contains_key(k) ==> self.phones[k].len() <= self.phone_limit
        &&& forall|k: Seq<char>| #[trigger]
            self.tenants.contains_key(k) ==> self.tenants[k].len() <= self.tenant_limit
    }

    /// The messages of the sender `key` that count at `now`.
    pub open spec fn phone_live(self, key: Seq<char>, now: u64) -> Seq<u64> {
        live(recorded(self.phones, key), now)
    }

    /// The messages of the tenant `key` that count at `now`.
    pub open spec fn tenant_live(self, key: Seq<char>, now: u64) -> Seq<u64> {
        live(recorded(self.tenants, key), now)
    }

    /// What a message of `phone` to `tenant_id` at `now` is answered: the sender's
    /// limit is looked at first.
    pub open spec fn verdict(self, now: u64, tenant_id: Seq<char>, phone: Seq<char>) -> Result<
        (),
        RateLimitDenied,
    > {
        if self.phone_live(sender_slot(tenant_id, phone), now).len() >= self.phone_limit {
            Err(RateLimitDenied::Phone)
        } else if self.tenant_live(tenant_id, now).len() >= self.tenant_limit {
            Err(RateLimitDenied::Tenant)
        } else {
            Ok(())
        }
    }

    /// The senders on record after a message of `key` at `now`, which is recorded
    /// where both limits let it pass. What has left the window is dropped, and a
    /// record of too many senders is pruned.
    pub open spec fn phones_after(self, now: u64, key: Seq<char>, passes: bool) -> Map<
        Seq<char>,
        Seq<u64>,
    > {
        let counted = self.phone_live(key, now);
        if counted.len() >= self.phone_limit {
            self.phones.insert(key, counted)
        } else {
            let noted = self.phones.insert(
                key,
                if passes {
                    counted.push(now)
                } else {
                    counted
                },
            );
            if noted.len() > PRUNE_THRESHOLD {
                pruned(noted, now)
            } else {
                noted
            }
        }
    }

    /// The tenants on record after a message to `key` at `now`, which is recorded
    /// where both limits let it pass.
    pub open spec fn tenants_after(self, now: u64, key: Seq<char>, passes: bool) -> Map<
        Seq<char>,
        Seq<u64>,
    > {
        let counted = self.tenant_live(key, now);
        self.tenants.insert(
            key,
            if passes {
                counted.push(now)
            } else {
                counted
            },
        )
    }

    /// The limiter after a message of `phone` to `tenant_id` at `now`.
    pub open spec fn after(self, now: u64, tenant_id: Seq<char>, phone: Seq<char>) -> Limiter {
        let verdict = self.verdict(now, tenant_id, phone);
        Limiter {
            phones: self.phones_after(now, sender_slot(tenant_id, phone), verdict is Ok),
            tenants: if verdict == Err::<(), RateLimitDenied>(RateLimitDenied::Phone) {
                self.tenants
            } else {
                self.tenants_after(now, tenant_id, verdict is Ok)
            },
            ..self
        }
    }
}

pub struct RateLimiter {
    started: std::time::Instant,
    phone_windows: WindowTable,
    tenant_windows: WindowTable,
}

impl View for RateLimiter {
    type V = Limiter;

    closed spec fn view(&self) -> Limiter {
        Limiter {
            phones: self.phone_windows@,
            tenants: self.tenant_windows@,
            phone_limit: self.phone_windows.limit,
            tenant_limit: self.tenant_windows.limit,
        }
    }
}

impl RateLimiter {
    #[verifier::type_invariant]
    spec fn inv(&self) -> bool {
        self.phone_windows.wf() && self.tenant_windows.wf()
    }

    /// A limiter that has seen no message. The limits are the configured numbers
    /// of messages per window, as they were written.
    pub fn new(phone_limit: Option<&str>, tenant_limit: Option<&str>) -> (r: RateLimiter)
        ensures
            r@ == Limiter::fresh(
                configured(
                    opt_str_view(phone_limit),
                    u32::MAX as nat,
                    DEFAULT_PHONE_LIMIT as nat,
                ) as u32,
                configured(
                    opt_str_view(tenant_limit),
                    u32::MAX as nat,
                    DEFAULT_TENANT_LIMIT as nat,
                ) as u32,
            ),
    {
        let phone: u32 = number_or(phone_limit, u32::MAX as u64, DEFAULT_PHONE_LIMIT as u64) as u32;
        let tenant: u32 = number_or(
            tenant_limit,
            u32::MAX as u64,
            DEFAULT_TENANT_LIMIT as u64,
        ) as u32;
        RateLimiter {
            started: instant_now(),
            phone_windows: WindowTable::new(phone),
            tenant_windows: WindowTable::new(tenant),
        }
    }

    /// Checks both limits for a message at this moment, and records it where they
    /// let it pass. Where one does not, the answer says which, and nothing is
    /// recorded.
    pub fn check_and_record(&mut self, tenant_id: &str, phone: &str) -> (r: Result<
        (),
        RateLimitDenied,
    >)
        ensures
            exists|now: u64|
                #![trigger old(self)@.verdict(now, tenant_id@, phone@)]
                r == old(self)@.verdict(now, tenant_id@, phone@) && final(self)@ == old(self)@.after(
                    now,
                    tenant_id@,
                    phone@,
                ),
    {
        let now: u64 = nanos_since(&self.started);
        self.check_and_record_at(now, tenant_id, phone)
    }

    /// Checks both limits for a message at `now`.
    pub fn check_and_record_at(&mut self, now: u64, tenant_id: &str, phone: &str) -> (r: Result<
        (),
        RateLimitDenied,
    >)
        ensures
            r == old(self)@.verdict(now, tenant_id@, phone@),
            final(self)@ == old(self)@.after(now, tenant_id@, phone@),
    {
        proof {
            use_type_invariant(&*self);
        }
        let mut phones = WindowTable::new(self.phone_windows.limit);
        let mut tenants = WindowTable::new(self.tenant_windows.limit);
        std::mem::swap(&mut phones, &mut self.phone_windows);
        std::mem::swap(&mut tenants, &mut self.tenant_windows);
        let r = check_both(&mut phones, &mut tenants, now, tenant_id, phone);
        std::mem::swap(&mut phones, &mut self.phone_windows);
        std::mem::swap(&mut tenants, &mut self.tenant_windows);
        r
    }
}

/// The limiter that two tables make.
spec fn limiter_of(phones: WindowTable, tenants: WindowTable) -> Limiter {
    Limiter {
        phones: phones@,
        tenants: tenants@,
        phone_limit: phones.limit,
        tenant_limit: tenants.limit,
    }
}

fn check_both(
    phones: &mut WindowTable,
    tenants: &mut WindowTable,
    now: u64,
    tenant_id: &str,
    phone: &str,
) -> (r: Result<(), RateLimitDenied>)
    requires
        old(phones).wf(),
        old(tenants).wf(),
    ensures
        final(phones).wf(),
        final(tenants).wf(),
        r == limiter_of(*old(phones), *old(tenants)).verdict(now, tenant_id@, phone@),
        limiter_of(*final(phones), *final(tenants)) == limiter_of(
            *old(phones),
            *old(tenants),
        ).after(now, tenant_id@, phone@),
{
    let mut key: String = concat3(decimal(tenant_id.unicode_len() as u64).as_str(), ":", tenant_id);
    key.append(":");
    key.append(phone);
    let ghost before = limiter_of(*phones, *tenants);
    let ghost slot = sender_slot(tenant_id@, phone@);
    assert(key@ == slot);
    let sent: u32 = phones.count(key.as_str(), now);
    if sent >= phones.limit {
        return Err(RateLimitDenied::Phone);
    }
    let reached: u32 = tenants.count(tenant_id, now);
    let passes = reached < tenants.limit;
    if passes {
        phones.record(key.as_str(), now);
        tenants.record(tenant_id, now);
    }
    proof {
        assert(tenants@ =~= before.tenants_after(now, tenant_id@, passes));
        assert(phones@ =~= before.phones.insert(
            slot,
            if passes {
                before.phone_live(slot, now).push(now)
            } else {
                before.phone_live(slot, now)
            },
        ));
    }
    if phones.len() > PRUNE_THRESHOLD {
        phones.retain_live(now);
    }
    if passes {
        Ok(())
    } else {
        Err(RateLimitDenied::Tenant)
    }
}

proof fn lemma_live_shorter(s: Seq<u64>, now: u64)
    ensures
        live(s, now).len() <= s.len(),
    decreases s.len(),
{
    reveal(Seq::filter);
    if s.len() > 0 {
        lemma_live_shorter(s.drop_last(), now);
    }
}

proof fn lemma_live_nested(s: Seq<u64>, t: u64, now: u64)
    requires
        t <= now,
    ensures
        live(live(s, t), now) == live(s, now),
        live(s, now).len() <= live(s, t).len(),
    decreases s.len(),
{
    if s.len() == 0 {
        reveal(Seq::filter);
        assert(live(s, t) =~= s);
    } else {
        let init = s.drop_last();
        let x = s.last();
        lemma_live_nested(init, t, now);
        assert(s =~= init.push(x));
        lemma_filter_push(init, x, t);
        lemma_filter_push(init, x, now);
        lemma_filter_push(live(init, t), x, now);
    }
}

proof fn lemma_recorded_pruned(m: Map<Seq<char>, Seq<u64>>, t: u64, key: Seq<char>)
    ensures
        recorded(pruned(m, t), key) == live(recorded(m, key), t),
{
    if !m.contains_key(key) {
        reveal(Seq::filter);
        assert(live(Seq::<u64>::empty(), t) =~= Seq::empty());
    } else if live(m[key], t).len() == 0 {
        assert(live(m[key], t) =~= Seq::empty());
    }
}

/// What the record of a sender shows at a later moment, after a message of
/// another or of the same sender.
proof fn lemma_phone_live_after(
    l: Limiter,
    t: u64,
    slot: Seq<char>,
    passes: bool,
    key: Seq<char>,
    now: u64,
)
    requires
        t <= now,
        passes ==> l.phone_live(slot, t).len() < l.phone_limit,
    ensures
        live(recorded(l.phones_after(t, slot, passes), key), now) == (if key == slot && passes {
            live(recorded(l.phones, key).push(t), now)
        } else {
            live(recorded(l.phones, key), now)
        }),
{
    let counted = l.phone_live(slot, t);
    let old_times = recorded(l.phones, key);
    lemma_live_nested(old_times, t, now);
    let noted = l.phones.insert(
        slot,
        if passes {
            counted.push(t)
        } else {
            counted
        },
    );
    if key == slot {
        assert(recorded(noted, key) == noted[slot]);
        lemma_filter_push(counted, t, now);
        lemma_filter_push(old_times, t, now);
    } else {
        assert(recorded(noted, key) == old_times);
    }
    if counted.len() < l.phone_limit && noted.len() > PRUNE_THRESHOLD {
        lemma_recorded_pruned(noted, t, key);
        lemma_live_nested(recorded(noted, key), t, now);
    }
}

proof fn lemma_tenant_live_after(
    l: Limiter,
    t: u64,
    slot: Seq<char>,
    passes: bool,
    key: Seq<char>,
    now: u64,
)
    requires
        t <= now,
    ensures
        live(recorded(l.tenants_after(t, slot, passes), key), now) == (if key == slot && passes {
            live(recorded(l.tenants, key).push(t), now)
        } else {
            live(recorded(l.tenants, key), now)
        }),
{
    let counted = l.tenant_live(slot, t);
    let old_times = recorded(l.tenants, key);
    lemma_live_nested(old_times, t, now);
    if key == slot {
        lemma_filter_push(counted, t, now);
        lemma_filter_push(old_times, t, now);
    }
}

/// What counts at a later moment, after a call: one more message where it passed,
/// and nothing else.
proof fn lemma_live_after(l: Limiter, c: Call, key: Seq<char>, now: u64)
    requires
        c.now <= now,
    ensures
        ({
            let end = l.after(c.now, c.tenant_id, c.phone);
            &&& end.phone_limit == l.phone_limit
            &&& end.tenant_limit == l.tenant_limit
            &&& end.phone_live(key, now) == (if key == c.slot() && l.answer(c) is Ok {
                live(recorded(l.phones, key).push(c.now), now)
            } else {
                l.phone_live(key, now)
            })
            &&& end.tenant_live(key, now) == (if key == c.tenant_id && l.answer(c) is Ok {
                live(recorded(l.tenants, key).push(c.now), now)
            } else {
                l.tenant_live(key, now)
            })
        }),
{
    let passes = l.answer(c) is Ok;
    lemma_phone_live_after(l, c.now, c.slot(), passes, key, now);
    lemma_tenant_live_after(l, c.now, c.tenant_id, passes, key, now);
}

/// One message that asked to pass.
pub struct Call {
    pub now: u64,
    pub tenant_id: Seq<char>,
    pub phone: Seq<char>,
}

impl Call {
    pub open spec fn slot(self) -> Seq<char> {
        sender_slot(self.tenant_id, self.phone)
    }
}

impl Limiter {
    /// What `c` is answered.
    pub open spec fn answer(self, c: Call) -> Result<(), RateLimitDenied> {
        self.verdict(c.now, c.tenant_id, c.phone)
    }

    /// The limiter after `calls`, one after another.
    pub open spec fn after_all(self, calls: Seq<Call>) -> Limiter
        decreases calls.len(),
    {
        if calls.len() == 0 {
            self
        } else {
            let c = calls.last();
            self.after_all(calls.drop_last()).after(c.now, c.tenant_id, c.phone)
        }
    }

    /// The moments of those of `calls` by the sender `key` that passed.
    pub open spec fn passed_sender(self, calls: Seq<Call>, key: Seq<char>) -> Seq<u64>
        decreases calls.len(),
    {
        if calls.len() == 0 {
            Seq::empty()
        } else {
            let rest = self.passed_sender(calls.drop_last(), key);
            let c = calls.last();
            if c.slot() == key && self.after_all(calls.drop_last()).answer(c) is Ok {
                rest.push(c.now)
            } else {
                rest
            }
        }
    }

    /// The moments of those of `calls` to the tenant `key` that passed.
    pub open spec fn passed_tenant(self, calls: Seq<Call>, key: Seq<char>) -> Seq<u64>
        decreases calls.len(),
    {
        if calls.len() == 0 {
            Seq::empty()
        } else {
            let rest = self.passed_tenant(calls.drop_last(), key);
            let c = calls.last();
            if c.tenant_id == key && self.after_all(calls.drop_last()).answer(c) is Ok {
                rest.push(c.now)
            } else {
                rest
            }
        }
    }
}

/// No call was made before an earlier one, nor after `now`.
pub open spec fn in_order(calls: Seq<Call>, now: u64) -> bool {
    &&& forall|i: int, j: int|
        0 <= i <= j < calls.len() ==> (#[trigger] calls[i]).now <= (#[trigger] calls[j]).now
    &&& calls.len() > 0 ==> calls.last().now <= now
}

proof fn lemma_run(phone_limit: u32, tenant_limit: u32, calls: Seq<Call>, key: Seq<char>, now: u64)
    requires
        in_order(calls, now),
    ensures
        ({
            let start = Limiter::fresh(phone_limit, tenant_limit);
            let end = start.after_all(calls);
            &&& end.phone_limit == phone_limit
            &&& end.tenant_limit == tenant_limit
            &&& end.phone_live(key, now) == live(start.passed_sender(calls, key), now)
            &&& end.tenant_live(key, now) == live(start.passed_tenant(calls, key), now)
            &&& end.phone_live(key, now).len() <= phone_limit
            &&& end.tenant_live(key, now).len() <= tenant_limit
        }),
    decreases calls.len(),
{
    let start = Limiter::fresh(phone_limit, tenant_limit);
    if calls.len() == 0 {
        reveal(Seq::filter);
        assert(live(Seq::<u64>::empty(), now) =~= Seq::empty());
    } else {
        let init = calls.drop_last();
        let c = calls.last();
        let mid = start.after_all(init);
        let end = start.after_all(calls);
        assert(in_order(init, c.now)) by {
            if init.len() > 0 {
                assert(calls[init.len() - 1].now <= calls[calls.len() - 1].now);
            }
            assert forall|i: int, j: int| 0 <= i <= j < init.len() implies (#[trigger] init[i]).now
                <= (#[trigger] init[j]).now by {
                assert(calls[i].now <= calls[j].now);
            }
        }
        assert(in_order(init, now));
        lemma_run(phone_limit, tenant_limit, init, key, now);
        lemma_run(phone_limit, tenant_limit, init, key, c.now);
        lemma_live_after(mid, c, key, now);
        let sent = start.passed_sender(init, key);
        lemma_filter_push(recorded(mid.phones, key), c.now, now);
        lemma_filter_push(sent, c.now, now);
        lemma_live_nested(recorded(mid.phones, key), c.now, now);
        let reached = start.passed_tenant(init, key);
        lemma_filter_push(recorded(mid.tenants, key), c.now, now);
        lemma_filter_push(reached, c.now, now);
        lemma_live_nested(recorded(mid.tenants, key), c.now, now);
    }
}

/// Whatever was asked of a limiter since it was made, and whenever one looks: within
/// the window that ends there, no more messages of one sender passed, and no more
/// messages to one tenant, than the limits say.
pub proof fn limits_hold(
    phone_limit: u32,
    tenant_limit: u32,
    calls: Seq<Call>,
    key: Seq<char>,
    now: u64,
)
    requires
        in_order(calls, now),
    ensures
        live(Limiter::fresh(phone_limit, tenant_limit).passed_sender(calls, key), now).len()
            <= phone_limit,
        live(Limiter::fresh(phone_limit, tenant_limit).passed_tenant(calls, key), now).len()
            <= tenant_limit,
{
    lemma_run(phone_limit, tenant_limit, calls, key, now);
}

/// A message is refused for its sender only when a full limit of that sender's
/// messages passed within the window, and for its tenant only when a full limit of
/// messages to that tenant did; any other message passes. What was dropped from the
/// record to save memory never changes an answer.
pub proof fn refused_only_at_the_limit(
    phone_limit: u32,
    tenant_limit: u32,
    calls: Seq<Call>,
    c: Call,
)
    requires
        in_order(calls, c.now),
    ensures
        ({
            let start = Limiter::fresh(phone_limit, tenant_limit);
            let sent = live(start.passed_sender(calls, c.slot()), c.now).len();
            let reached = live(start.passed_tenant(calls, c.tenant_id), c.now).len();
            start.after_all(calls).answer(c) == (if sent == phone_limit {
                Err::<(), RateLimitDenied>(RateLimitDenied::Phone)
            } else if reached == tenant_limit {
                Err(RateLimitDenied::Tenant)
            } else {
                Ok(())
            })
        }),
{
    lemma_run(phone_limit, tenant_limit, calls, c.slot(), c.now);
    lemma_run(phone_limit, tenant_limit, calls, c.tenant_id, c.now);
}

/// No window ever holds more moments than its limit.
pub proof fn windows_stay_bounded(l: Limiter, now: u64, tenant_id: Seq<char>, phone: Seq<char>)
    requires
        l.bounded(),
    ensures
        l.after(now, tenant_id, phone).bounded(),
{
    let slot = sender_slot(tenant_id, phone);
    let after = l.after(now, tenant_id, phone);
    lemma_live_shorter(recorded(l.phones, slot), now);
    lemma_live_shorter(recorded(l.tenants, tenant_id), now);
    let passes = l.verdict(now, tenant_id, phone) is Ok;
    let noted = l.phones.insert(
        slot,
        if passes {
            l.phone_live(slot, now).push(now)
        } else {
            l.phone_live(slot, now)
        },
    );
    assert forall|k: Seq<char>| #[trigger] after.phones.contains_key(k) implies after.phones[k].len()
        <= after.phone_limit by {
        if k != slot {
            assert(l.phones.contains_key(k));
            lemma_live_shorter(l.phones[k], now);
        } else {
            lemma_live_shorter(noted[slot], now);
        }
    }
    assert forall|k: Seq<char>| #[trigger]
        after.tenants.contains_key(k) implies after.tenants[k].len() <= after.tenant_limit by {
        if k != tenant_id {
            assert(l.tenants.contains_key(k));
        }
    }
}

/// The two limits are enforced independently of who else writes: a message leaves
/// what counts for another sender, and for another tenant, as it was.
pub proof fn others_are_untouched(
    l: Limiter,
    now: u64,
    tenant_id: Seq<char>,
    phone: Seq<char>,
    other: Seq<char>,
    later: u64,
)
    requires
        now <= later,
    ensures
        other != sender_slot(tenant_id, phone) ==> l.after(now, tenant_id, phone).phone_live(
            other,
            later,
        ) == l.phone_live(other, later),
        other != tenant_id ==> l.after(now, tenant_id, phone).tenant_live(other, later)
            == l.tenant_live(other, later),
{
    lemma_live_after(l, Call { now, tenant_id, phone }, other, later);
}

/// A refused message is recorded in no window: what counts for every sender and for
/// every tenant, at every later moment, is what counted without it.
pub proof fn a_refused_message_is_not_recorded(l: Limiter, c: Call, key: Seq<char>, later: u64)
    requires
        l.answer(c) is Err,
        c.now <= later,
    ensures
        l.after(c.now, c.tenant_id, c.phone).phone_live(key, later) == l.phone_live(key, later),
        l.after(c.now, c.tenant_id, c.phone).tenant_live(key, later) == l.tenant_live(key, later),
{
    lemma_live_after(l, c, key, later);
}

/// Two limiters count the same from `now` on.
spec fn count_alike(a: Limiter, b: Limiter, now: u64) -> bool {
    &&& a.phone_limit == b.phone_limit
    &&& a.tenant_limit == b.tenant_limit
    &&& forall|key: Seq<char>, t: u64|
        now <= t ==> #[trigger] a.phone_live(key, t) == b.phone_live(key, t)
    &&& forall|key: Seq<char>, t: u64|
        now <= t ==> #[trigger] a.tenant_live(key, t) == b.tenant_live(key, t)
}

proof fn lemma_count_alike_after(a: Limiter, b: Limiter, from: u64, c: Call)
    requires
        count_alike(a, b, from),
        from <= c.now,
    ensures
        a.answer(c) == b.answer(c),
        count_alike(
            a.after(c.now, c.tenant_id, c.phone),
            b.after(c.now, c.tenant_id, c.phone),
            c.now,
        ),
{
    let a1 = a.after(c.now, c.tenant_id, c.phone);
    let b1 = b.after(c.now, c.tenant_id, c.phone);
    assert(a.phone_live(c.slot(), c.now) == b.phone_live(c.slot(), c.now));
    assert(a.tenant_live(c.tenant_id, c.now) == b.tenant_live(c.tenant_id, c.now));
    assert forall|key: Seq<char>, t: u64| c.now <= t implies #[trigger] a1.phone_live(key, t)
        == b1.phone_live(key, t) by {
        lemma_live_after(a, c, key, t);
        lemma_live_after(b, c, key, t);
        lemma_filter_push(recorded(a.phones, key), c.now, t);
        lemma_filter_push(recorded(b.phones, key), c.now, t);
        assert(a.phone_live(key, t) == b.phone_live(key, t));
    }
    assert forall|key: Seq<char>, t: u64| c.now <= t implies #[trigger] a1.tenant_live(key, t)
        == b1.tenant_live(key, t) by {
        lemma_live_after(a, c, key, t);
        lemma_live_after(b, c, key, t);
        lemma_filter_push(recorded(a.tenants, key), c.now, t);
        lemma_filter_push(recorded(b.tenants, key), c.now, t);
        assert(a.tenant_live(key, t) == b.tenant_live(key, t));
    }
}

proof fn lemma_count_alike_all(a: Limiter, b: Limiter, from: u64, calls: Seq<Call>)
    requires
        count_alike(a, b, from),
        forall|i: int| 0 <= i < calls.len() ==> from <= (#[trigger] calls[i]).now,
        forall|i: int, j: int|
            0 <= i <= j < calls.len() ==> (#[trigger] calls[i]).now <= (#[trigger] calls[j]).now,
    ensures
        count_alike(
            a.after_all(calls),
            b.after_all(calls),
            if calls.len() == 0 {
                from
            } else {
                calls.last().now
            },
        ),
    decreases calls.len(),
{
    if calls.len() > 0 {
        let init = calls.drop_last();
        assert forall|i: int| 0 <= i < init.len() implies from <= (#[trigger] init[i]).now by {
            assert(init[i] == calls[i]);
        }
        assert forall|i: int, j: int| 0 <= i <= j < init.len() implies (#[trigger] init[i]).now
            <= (#[trigger] init[j]).now by {
            assert(calls[i].now <= calls[j].now);
        }
        lemma_count_alike_all(a, b, from, init);
        let before: u64 = if init.len() == 0 {
            from
        } else {
            init.last().now
        };
        assert(calls[calls.len() - 1] == calls.last());
        if init.len() > 0 {
            assert(calls[init.len() - 1].now <= calls[calls.len() - 1].now);
        }
        lemma_count_alike_after(a.after_all(init), b.after_all(init), before, calls.last());
    }
}

/// A refused message leaves no trace: whatever is asked after it, every answer is the
/// one that it would have been had the refused message not been sent.
pub proof fn a_refused_message_leaves_no_trace(
    l: Limiter,
    refused: Call,
    calls: Seq<Call>,
    next: Call,
)
    requires
        l.answer(refused) is Err,
        in_order(calls, next.now),
        forall|i: int| 0 <= i < calls.len() ==> refused.now <= (#[trigger] calls[i]).now,
        refused.now <= next.now,
    ensures
        l.after(refused.now, refused.tenant_id, refused.phone).after_all(calls).answer(next)
            == l.after_all(calls).answer(next),
{
    let trace = l.after(refused.now, refused.tenant_id, refused.phone);
    assert forall|key: Seq<char>, t: u64| refused.now <= t implies #[trigger] trace.phone_live(
        key,
        t,
    ) == l.phone_live(key, t) by {
        lemma_live_after(l, refused, key, t);
    }
    assert forall|key: Seq<char>, t: u64| refused.now <= t implies #[trigger] trace.tenant_live(
        key,
        t,
    ) == l.tenant_live(key, t) by {
        lemma_live_after(l, refused, key, t);
    }
    assert(count_alike(trace, l, refused.now));
    lemma_count_alike_all(trace, l, refused.now, calls);
    let from: u64 = if calls.len() == 0 {
        refused.now
    } else {
        calls.last().now
    };
    lemma_count_alike_after(trace.after_all(calls), l.after_all(calls), from, next);
}

/// Two senders are counted together only if they are the same sender of the same
/// tenant.
pub proof fn senders_are_counted_apart(
    tenant1: Seq<char>,
    phone1: Seq<char>,
    tenant2: Seq<char>,
    phone2: Seq<char>,
)
    requires
        sender_slot(tenant1, phone1) == sender_slot(tenant2, phone2),
    ensures
        tenant1 == tenant2,
        phone1 == phone2,
{
    reveal_strlit(":");
    let a = sender_slot(tenant1, phone1);
    let b = sender_slot(tenant2, phone2);
    let d1 = decimal_of(tenant1.len());
    let d2 = decimal_of(tenant2.len());
    let n1 = d1.len() as int;
    let n2 = d2.len() as int;
    lemma_decimal_reads_back(tenant1.len());
    lemma_decimal_reads_back(tenant2.len());
    assert(a[n1] == ':');
    assert(b[n2] == ':');
    if n1 < n2 {
        assert(b[n1] == d2[n1]);
    }
    if n2 < n1 {
        assert(a[n2] == d1[n2]);
    }
    assert(d1 =~= a.take(n1));
    assert(d2 =~= b.take(n2));
    assert(tenant1.len() == tenant2.len());
    let m = tenant1.len() as int;
    assert(tenant1 =~= a.subrange(n1 + 1, n1 + 1 + m));
    assert(tenant2 =~= b.subrange(n1 + 1, n1 + 1 + m));
    assert(phone1 =~= a.skip(n1 + m + 2));
    assert(phone2 =~= b.skip(n1 + m + 2));
}

/// How many of `times` lie within the minute that ends at `now`.
pub open spec fn within_a_minute(times: Seq<u64>, now: u64) -> nat
    decreases times.len(),
{
    if times.len() == 0 {
        0
    } else {
        let t = times.last();
        within_a_minute(times.drop_last(), now) + (if now - t < 60_000_000_000 {
            1nat
        } else {
            0
        })
    }
}

/// How many of `times` lie within the minute that begins at `start`.
pub open spec fn in_the_minute_from(times: Seq<u64>, start: u64) -> nat
    decreases times.len(),
{
    if times.len() == 0 {
        0
    } else {
        let t = times.last();
        in_the_minute_from(times.drop_last(), start) + (if start <= t < start + 60_000_000_000 {
            1nat
        } else {
            0
        })
    }
}

/// A moment counts for sixty seconds from when it is recorded, to the nanosecond, at
/// whatever time that is, and the moments that count keep their order.
pub proof fn a_moment_counts_for_a_minute(times: Seq<u64>, t: u64, now: u64)
    ensures
        live(times.push(t), now) == (if now - t < 60_000_000_000 {
            live(times, now).push(t)
        } else {
            live(times, now)
        }),
        live(Seq::empty(), now) == Seq::<u64>::empty(),
{
    lemma_filter_push(times, t, now);
    reveal(Seq::filter);
    assert(live(Seq::<u64>::empty(), now) =~= Seq::empty());
}

proof fn lemma_live_counts(times: Seq<u64>, now: u64)
    ensures
        live(times, now).len() == within_a_minute(times, now),
    decreases times.len(),
{
    if times.len() == 0 {
        assert(times =~= Seq::empty());
        a_moment_counts_for_a_minute(Seq::empty(), 0, now);
    } else {
        lemma_live_counts(times.drop_last(), now);
        a_moment_counts_for_a_minute(times.drop_last(), times.last(), now);
        assert(times.drop_last().push(times.last()) =~= times);
    }
}

/// What a message is answered depends on the messages that passed within the last sixty
/// seconds and on nothing else: it is refused for its sender exactly if a full limit of
/// that sender's did, for its tenant exactly if only a full limit of that tenant's did,
/// and passes otherwise. How long the limiter has been up makes no difference.
pub proof fn the_last_minute_decides(
    phone_limit: u32,
    tenant_limit: u32,
    calls: Seq<Call>,
    c: Call,
)
    requires
        in_order(calls, c.now),
    ensures
        ({
            let start = Limiter::fresh(phone_limit, tenant_limit);
            let sent = within_a_minute(start.passed_sender(calls, c.slot()), c.now);
            let reached = within_a_minute(start.passed_tenant(calls, c.tenant_id), c.now);
            &&& sent <= phone_limit
            &&& reached <= tenant_limit
            &&& start.after_all(calls).verdict(c.now, c.tenant_id, c.phone) == (if sent
                == phone_limit {
                Err::<(), RateLimitDenied>(RateLimitDenied::Phone)
            } else if reached == tenant_limit {
                Err(RateLimitDenied::Tenant)
            } else {
                Ok(())
            })
        }),
{
    let start = Limiter::fresh(phone_limit, tenant_limit);
    refused_only_at_the_limit(phone_limit, tenant_limit, calls, c);
    limits_hold(phone_limit, tenant_limit, calls, c.slot(), c.now);
    limits_hold(phone_limit, tenant_limit, calls, c.tenant_id, c.now);
    lemma_live_counts(start.passed_sender(calls, c.slot()), c.now);
    lemma_live_counts(start.passed_tenant(calls, c.tenant_id), c.now);
}

proof fn lemma_minute_from_within(times: Seq<u64>, start: u64, now: u64)
    requires
        now < start + 60_000_000_000,
        forall|i: int| 0 <= i < times.len() ==> #[trigger] times[i] <= now,
    ensures
        in_the_minute_from(times, start) <= within_a_minute(times, now),
    decreases times.len(),
{
    if times.len() > 0 {
        assert(times[times.len() - 1] <= now);
        let init = times.drop_last();
        assert forall|i: int| 0 <= i < init.len() implies #[trigger] init[i] <= now by {
            assert(init[i] == times[i]);
        }
        lemma_minute_from_within(init, start, now);
    }
}

proof fn lemma_passed_in_time(l: Limiter, calls: Seq<Call>, key: Seq<char>, now: u64)
    requires
        in_order(calls, now),
    ensures
        forall|i: int|
            0 <= i < l.passed_sender(calls, key).len() ==> #[trigger] l.passed_sender(calls, key)[i]
                <= now,
        forall|i: int|
            0 <= i < l.passed_tenant(calls, key).len() ==> #[trigger] l.passed_tenant(calls, key)[i]
                <= now,
    decreases calls.len(),
{
    if calls.len() > 0 {
        lemma_in_order_init(calls, now);
        let init = calls.drop_last();
        lemma_passed_in_time(l, init, key, now);
        let sent = l.passed_sender(init, key);
        let reached = l.passed_tenant(init, key);
        assert forall|i: int| 0 <= i < l.passed_sender(calls, key).len() implies
            #[trigger] l.passed_sender(calls, key)[i] <= now by {
            if i < sent.len() {
                assert(l.passed_sender(calls, key)[i] == sent[i]);
            }
        }
        assert forall|i: int| 0 <= i < l.passed_tenant(calls, key).len() implies
            #[trigger] l.passed_tenant(calls, key)[i] <= now by {
            if i < reached.len() {
                assert(l.passed_tenant(calls, key)[i] == reached[i]);
            }
        }
    }
}

proof fn lemma_in_order_init(calls: Seq<Call>, now: u64)
    requires
        in_order(calls, now),
        calls.len() > 0,
    ensures
        in_order(calls.drop_last(), now),
        in_order(calls.drop_last(), calls.last().now),
{
    let init = calls.drop_last();
    if init.len() > 0 {
        assert(calls[init.len() - 1].now <= calls[calls.len() - 1].now);
    }
    assert forall|i: int, j: int| 0 <= i <= j < init.len() implies (#[trigger] init[i]).now <= (
    #[trigger] init[j]).now by {
        assert(calls[i].now <= calls[j].now);
    }
}

/// Whatever minute one looks at, whenever it begins and whatever was sent before and
/// after it: no more of one sender's messages pass in it than the sender's limit, and no
/// more of one tenant's than the tenant's.
pub proof fn no_minute_lets_more_pass(
    phone_limit: u32,
    tenant_limit: u32,
    calls: Seq<Call>,
    key: Seq<char>,
    start: u64,
    now: u64,
)
    requires
        in_order(calls, now),
    ensures
        ({
            let l = Limiter::fresh(phone_limit, tenant_limit);
            &&& in_the_minute_from(l.passed_sender(calls, key), start) <= phone_limit
            &&& in_the_minute_from(l.passed_tenant(calls, key), start) <= tenant_limit
        }),
    decreases calls.len(),
{
    let l = Limiter::fresh(phone_limit, tenant_limit);
    if calls.len() > 0 {
        let t = calls.last().now;
        if t < start + 60_000_000_000 {
            assert(in_order(calls, t));
            limits_hold(phone_limit, tenant_limit, calls, key, t);
            lemma_live_counts(l.passed_sender(calls, key), t);
            lemma_live_counts(l.passed_tenant(calls, key), t);
            lemma_passed_in_time(l, calls, key, t);
            lemma_minute_from_within(l.passed_sender(calls, key), start, t);
            lemma_minute_from_within(l.passed_tenant(calls, key), start, t);
        } else {
            let init = calls.drop_last();
            lemma_in_order_init(calls, now);
            no_minute_lets_more_pass(phone_limit, tenant_limit, init, key, start, now);
            let sent = l.passed_sender(init, key);
            let reached = l.passed_tenant(init, key);
            assert(sent.push(t).drop_last() =~= sent);
            assert(reached.push(t).drop_last() =~= reached);
        }
    }
}

/// A sender who sends no more than the limit within a minute, to a tenant who gets no
/// more than theirs, is never refused: what was sent at least a minute ago is forgotten.
pub proof fn whoever_waits_a_minute_passes(
    phone_limit: u32,
    tenant_limit: u32,
    calls: Seq<Call>,
    c: Call,
)
    requires
        in_order(calls, c.now),
        phone_limit > 0,
        tenant_limit > 0,
        forall|i: int| 0 <= i < calls.len() ==> c.now - (#[trigger] calls[i]).now >= 60_000_000_000,
    ensures
        Limiter::fresh(phone_limit, tenant_limit).after_all(calls).verdict(
            c.now,
            c.tenant_id,
            c.phone,
        ) is Ok,
{
    let l = Limiter::fresh(phone_limit, tenant_limit);
    the_last_minute_decides(phone_limit, tenant_limit, calls, c);
    lemma_nothing_recent(l, calls, c.slot(), c.now);
    lemma_nothing_recent(l, calls, c.tenant_id, c.now);
}

proof fn lemma_nothing_recent(l: Limiter, calls: Seq<Call>, key: Seq<char>, now: u64)
    requires
        forall|i: int| 0 <= i < calls.len() ==> now - (#[trigger] calls[i]).now >= 60_000_000_000,
    ensures
        within_a_minute(l.passed_sender(calls, key), now) == 0,
        within_a_minute(l.passed_tenant(calls, key), now) == 0,
    decreases calls.len(),
{
    if calls.len() > 0 {
        let init = calls.drop_last();
        assert forall|i: int| 0 <= i < init.len() implies now - (#[trigger] init[i]).now
            >= 60_000_000_000 by {
            assert(init[i] == calls[i]);
        }
        lemma_nothing_recent(l, init, key, now);
        let t = calls.last().now;
        assert(calls[calls.len() - 1].now == t);
        assert(l.passed_sender(init, key).push(t).drop_last() =~= l.passed_sender(init, key));
        assert(l.passed_tenant(init, key).push(t).drop_last() =~= l.passed_tenant(init, key));
    }
}

} // verus!
