//! Login rate limiting: a fixed window of failed attempts for each source address.

use crate::clock;
use crate::clock::Clock;
use std::collections::HashMap;
use std::hash::Hash;
use std::time::Instant;
use vstd::prelude::*;

verus! {

/// Failed attempts within one window before further attempts are rejected.
pub const MAX_FAILURES: u32 = 5;

/// Length of the window in nanoseconds. The failure counter of an address resets when its window
/// expires.
pub const WINDOW: u128 = 60_000_000_000;

/// Verifications of passwords that may run at the same time in the whole process.
pub const VERIFY_PERMITS: usize = 2;

/// A source address by its bits.
#[derive(Clone, Copy, PartialEq, Eq, Structural, Debug)]
pub enum IpAddr {
    V4(u32),
    V6(u128),
}

/// The failures of one address in its current window.
#[derive(Clone, Copy, PartialEq, Eq, Structural, Debug)]
pub struct WindowEntry {
    /// Clock reading in nanoseconds at the first failure of the window.
    pub window_start: u128,
    pub failures: u32,
}

/// The window has not expired at `now`. A start later than `now` counts as no time passed.
pub open spec fn live(e: WindowEntry, now: u128) -> bool {
    now - e.window_start < WINDOW
}

/// The entries whose window has not expired at `now`.
pub open spec fn live_entries<K>(entries: Map<K, WindowEntry>, now: u128) -> Map<K, WindowEntry> {
    Map::new(|k: K| entries.contains_key(k) && live(entries[k], now), |k: K| entries[k])
}

/// The entry after one more failure at `now`.
pub open spec fn one_more<K>(entries: Map<K, WindowEntry>, k: K, now: u128) -> WindowEntry {
    if entries.contains_key(k) {
        let e = entries[k];
        WindowEntry {
            failures: if e.failures < u32::MAX {
                (e.failures + 1) as u32
            } else {
                u32::MAX
            },
            ..e
        }
    } else {
        WindowEntry { window_start: now, failures: 1 }
    }
}

/// The entries let an attempt from `k` through.
pub open spec fn lets_through<K>(entries: Map<K, WindowEntry>, k: K) -> bool {
    entries.contains_key(k) ==> entries[k].failures < MAX_FAILURES
}

fn is_live(e: &WindowEntry, now: u128) -> (r: bool)
    ensures
        r == live(*e, now),
{
    now.saturating_sub(e.window_start) < WINDOW
}

/// The keys of the entries whose window has expired.
fn expired_keys<K: Eq + Hash + Copy>(entries: &HashMap<K, WindowEntry>, now: u128) -> (r: Vec<K>)
    requires
        vstd::std_specs::hash::obeys_key_model::<K>(),
    ensures
        forall|k: K| #[trigger]
            r@.contains(k) <==> entries@.contains_key(k) && !live(entries@[k], now),
{
    let mut expired: Vec<K> = Vec::new();
    let ghost items = vstd::std_specs::iter::IteratorSpec::remaining(
        &vstd::std_specs::hash::spec_hash_map_iter(entries),
    );
    for (k, e) in it: entries.iter()
        invariant
            it.seq() == items,
            items == vstd::std_specs::iter::IteratorSpec::remaining(
                &vstd::std_specs::hash::spec_hash_map_iter(entries),
            ),
            forall|key: K| #[trigger]
                expired@.contains(key) ==> entries@.contains_key(key) && !live(
                    entries@[key],
                    now,
                ),
            forall|j: int|
                0 <= j < it.index() && !live(*(#[trigger] items[j]).1, now) ==> expired@.contains(
                    *items[j].0,
                ),
    {
        let ghost prior = expired@;
        if !is_live(e, now) {
            expired.push(*k);
            proof {
                assert(expired@ == prior.push(*k));
                assert(expired@[prior.len() as int] == *k);
                assert(entries@.contains_key(*items[it.index()].0));
                assert forall|key: K| prior.contains(key) implies #[trigger] expired@.contains(
                    key,
                ) by {
                    let i = choose|i: int| 0 <= i < prior.len() && prior[i] == key;
                    assert(expired@[i] == key);
                }
                assert forall|key: K| #[trigger] expired@.contains(key) implies key == *k
                    || prior.contains(key) by {
                    let i = choose|i: int| 0 <= i < expired@.len() && expired@[i] == key;
                    if i < prior.len() {
                        assert(prior[i] == key);
                    }
                }
            }
        }
    }
    assert forall|k: K| entries@.contains_key(k) && !live(entries@[k], now) implies #[trigger]
        expired@.contains(k) by {
        assert(items.contains((&k, &entries@[k])));
        let j = choose|j: int| 0 <= j < items.len() && items[j] == (&k, &entries@[k]);
        assert(*items[j].0 == k);
    }
    expired
}

/// Drop the entries whose window has expired, and leave the others as they are.
pub fn prune<K: Eq + Hash + Copy>(entries: &mut HashMap<K, WindowEntry>, now: u128)
    requires
        vstd::std_specs::hash::obeys_key_model::<K>(),
    ensures
        final(entries)@ == live_entries(old(entries)@, now),
{
    let expired = expired_keys(&*entries, now);
    let ghost before = entries@;
    let mut i: usize = 0;
    while i < expired.len()
        invariant
            vstd::std_specs::hash::obeys_key_model::<K>(),
            i <= expired@.len(),
            forall|k: K| #[trigger]
                expired@.contains(k) <==> before.contains_key(k) && !live(before[k], now),
            forall|k: K| #[trigger]
                entries@.contains_key(k) <==> before.contains_key(k) && !expired@.take(
                    i as int,
                ).contains(k),
            forall|k: K| #[trigger] entries@.contains_key(k) ==> entries@[k] == before[k],
        decreases expired@.len() - i,
    {
        proof {
            let done = expired@.take(i as int);
            assert(expired@.take(i + 1) == done.push(expired@[i as int]));
            assert forall|k: K| #[trigger] done.push(expired@[i as int]).contains(k) <==> (
            done.contains(k) || k == expired@[i as int]) by {
                vstd::seq_lib::lemma_seq_contains_after_push(done, expired@[i as int], k);
            }
        }
        entries.remove(&expired[i]);
        i = i + 1;
    }
    assert(expired@.take(i as int) == expired@);
    assert(entries@ == live_entries(before, now));
}

/// Count one more failure of `k`.
fn count_failure<K: Eq + Hash + Copy>(entries: &mut HashMap<K, WindowEntry>, k: K, now: u128)
    requires
        vstd::std_specs::hash::obeys_key_model::<K>(),
    ensures
        final(entries)@ == old(entries)@.insert(k, one_more(old(entries)@, k, now)),
{
    let e = match entries.get(&k) {
        Some(e) => WindowEntry {
            window_start: e.window_start,
            failures: e.failures.saturating_add(1),
        },
        None => WindowEntry { window_start: now, failures: 1 },
    };
    entries.insert(k, e);
}

fn under_limit(entry: Option<&WindowEntry>) -> (r: bool)
    ensures
        r == (entry matches Some(e) ==> e.failures < MAX_FAILURES),
{
    match entry {
        Some(e) => e.failures < MAX_FAILURES,
        None => true,
    }
}

/// Failed logins of each address. Every access drops the expired entries, so the map
/// cannot grow without bound under a spread of source addresses.
pub struct LoginRateLimiter {
    v4: HashMap<u32, WindowEntry>,
    v6: HashMap<u128, WindowEntry>,
    clock: Clock,
}

/// The entries of both address families.
pub open spec fn joined(v4: Map<u32, WindowEntry>, v6: Map<u128, WindowEntry>) -> Map<
    IpAddr,
    WindowEntry,
> {
    Map::new(
        |ip: IpAddr|
            match ip {
                IpAddr::V4(a) => v4.contains_key(a),
                IpAddr::V6(a) => v6.contains_key(a),
            },
        |ip: IpAddr|
            match ip {
                IpAddr::V4(a) => v4[a],
                IpAddr::V6(a) => v6[a],
            },
    )
}

impl View for LoginRateLimiter {
    type V = Map<IpAddr, WindowEntry>;

    closed spec fn view(&self) -> Map<IpAddr, WindowEntry> {
        joined(self.v4@, self.v6@)
    }
}

/// The entries after a failure of `ip` at `now`.
pub open spec fn failed_at(entries: Map<IpAddr, WindowEntry>, ip: IpAddr, now: u128) -> Map<
    IpAddr,
    WindowEntry,
> {
    let kept = live_entries(entries, now);
    kept.insert(ip, one_more(kept, ip, now))
}

/// The entries after a success of `ip` at `now`.
pub open spec fn cleared_at(entries: Map<IpAddr, WindowEntry>, ip: IpAddr, now: u128) -> Map<
    IpAddr,
    WindowEntry,
> {
    live_entries(entries, now).remove(ip)
}

/// A clock was read between two of its states, and its latest reading is from then.
pub open spec fn ticked(before: Clock, after: Clock) -> bool {
    &&& after.origin() == before.origin()
    &&& clock::read_after(after.reading(), before.origin(), before.reading())
}

impl LoginRateLimiter {
    /// The clock reading from which this limiter counts time.
    pub open spec fn origin(&self) -> Instant {
        self.clock().origin()
    }

    /// The clock that this limiter reads.
    pub closed spec fn clock(&self) -> Clock {
        self.clock
    }

    pub fn new() -> (r: Self)
        ensures
            r@ == Map::<IpAddr, WindowEntry>::empty(),
            clock::is_reading(r.clock().origin()),
            r.clock().reading() == clock::nanos_between(r.clock().origin(), r.clock().origin()),
    {
        let r = LoginRateLimiter {
            v4: HashMap::new(),
            v6: HashMap::new(),
            clock: Clock::start(),
        };
        assert(r@ == Map::<IpAddr, WindowEntry>::empty());
        r
    }

    fn prune_all(&mut self, now: u128)
        ensures
            final(self)@ == live_entries(old(self)@, now),
            final(self).origin() == old(self).origin(),
            final(self).clock() == old(self).clock(),
    {
        prune(&mut self.v4, now);
        prune(&mut self.v6, now);
        assert(self@ == live_entries(old(self)@, now));
    }

    /// Whether this address may attempt a login at `now`. Does not count as an attempt by itself.
    pub fn allow_at(&mut self, ip: IpAddr, now: u128) -> (r: bool)
        ensures
            r == lets_through(live_entries(old(self)@, now), ip),
            final(self)@ == live_entries(old(self)@, now),
            final(self).origin() == old(self).origin(),
            final(self).clock() == old(self).clock(),
    {
        self.prune_all(now);
        match ip {
            IpAddr::V4(a) => under_limit(self.v4.get(&a)),
            IpAddr::V6(a) => under_limit(self.v6.get(&a)),
        }
    }

    /// Record a failed login attempt of this address at `now`.
    pub fn record_failure_at(&mut self, ip: IpAddr, now: u128)
        ensures
            final(self)@ == failed_at(old(self)@, ip, now),
            final(self).origin() == old(self).origin(),
            final(self).clock() == old(self).clock(),
    {
        self.prune_all(now);
        match ip {
            IpAddr::V4(a) => count_failure(&mut self.v4, a, now),
            IpAddr::V6(a) => count_failure(&mut self.v6, a, now),
        }
        assert(self@ == failed_at(old(self)@, ip, now));
    }

    /// The time now, counted as this limiter counts it.
    pub fn now(&self) -> (now: u128)
        ensures
            exists|t: Instant| now == #[trigger] clock::nanos_between(t, self.origin()),
            clock::read_after(now, self.origin(), self.clock().reading()),
    {
        let now: u128 = self.clock.now();
        proof {
            let t = choose|t: Instant|
                now == #[trigger] clock::nanos_between(t, self.clock.origin());
            assert(now == clock::nanos_between(t, self.origin()));
        }
        now
    }

    /// Take a reading of the clock. The entries stay as they are.
    pub fn tick(&mut self) -> (now: u128)
        ensures
            final(self)@ == old(self)@,
            final(self).origin() == old(self).origin(),
            ticked(old(self).clock(), final(self).clock()),
            now == final(self).clock().reading(),
            exists|t: Instant| now == #[trigger] clock::nanos_between(t, old(self).origin()),
    {
        self.clock.read()
    }

    /// Whether this address may attempt a login now. Does not count as an attempt by itself.
    pub fn allow(&mut self, ip: IpAddr) -> (r: bool)
        ensures
            exists|t: Instant|
                {
                    let now = #[trigger] clock::nanos_between(t, old(self).origin());
                    &&& r == lets_through(live_entries(old(self)@, now), ip)
                    &&& final(self)@ == live_entries(old(self)@, now)
                    &&& now == final(self).clock().reading()
                },
            final(self).origin() == old(self).origin(),
            ticked(old(self).clock(), final(self).clock()),
            !old(self)@.contains_key(ip) ==> r,
            old(self)@.contains_key(ip) && final(self).clock().reading()
                - old(self)@[ip].window_start >= WINDOW ==> r,
            old(self)@.contains_key(ip) && final(self).clock().reading()
                - old(self)@[ip].window_start < WINDOW ==> r == (old(self)@[ip].failures
                < MAX_FAILURES),
    {
        let now: u128 = self.tick();
        self.allow_at(ip, now)
    }

    /// Record a failed login attempt of this address now.
    pub fn record_failure(&mut self, ip: IpAddr)
        ensures
            exists|t: Instant|
                final(self)@ == failed_at(
                    old(self)@,
                    ip,
                    #[trigger] clock::nanos_between(t, old(self).origin()),
                ),
            final(self).origin() == old(self).origin(),
            ticked(old(self).clock(), final(self).clock()),
            final(self)@ == failed_at(old(self)@, ip, final(self).clock().reading()),
    {
        let now: u128 = self.tick();
        self.record_failure_at(ip, now);
    }

    /// Clear the failure counter of this address after a successful login at `now`.
    pub fn record_success_at(&mut self, ip: IpAddr, now: u128)
        ensures
            final(self)@ == cleared_at(old(self)@, ip, now),
            final(self).origin() == old(self).origin(),
            final(self).clock() == old(self).clock(),
    {
        self.prune_all(now);
        match ip {
            IpAddr::V4(a) => {
                self.v4.remove(&a);
            },
            IpAddr::V6(a) => {
                self.v6.remove(&a);
            },
        }
        assert(self@ == cleared_at(old(self)@, ip, now));
    }

    /// Clear the failure counter after a successful login: a legitimate user who mistyped a few
    /// times must not carry the penalty into the next window.
    pub fn record_success(&mut self, ip: IpAddr)
        ensures
            exists|t: Instant|
                final(self)@ == cleared_at(
                    old(self)@,
                    ip,
                    #[trigger] clock::nanos_between(t, old(self).origin()),
                ),
            final(self).origin() == old(self).origin(),
            ticked(old(self).clock(), final(self).clock()),
            final(self)@ == cleared_at(old(self)@, ip, final(self).clock().reading()),
    {
        let now: u128 = self.tick();
        self.record_success_at(ip, now);
    }

    /// The number of addresses that have an entry.
    pub fn len(&self) -> (n: u128)
        ensures
            self@.dom().finite(),
            n == self@.dom().len(),
    {
        let n: u128 = self.v4.len() as u128 + self.v6.len() as u128;
        proof {
            let v4 = self.v4@.dom().map(|a: u32| IpAddr::V4(a));
            let v6 = self.v6@.dom().map(|a: u128| IpAddr::V6(a));
            vstd::set_lib::lemma_map_size(self.v4@.dom(), v4, |a: u32| IpAddr::V4(a));
            vstd::set_lib::lemma_map_size(self.v6@.dom(), v6, |a: u128| IpAddr::V6(a));
            assert forall|ip: IpAddr| #[trigger] self@.dom().contains(ip) implies (v4 + v6).contains(
                ip,
            ) by {
                match ip {
                    IpAddr::V4(a) => assert(self.v4@.dom().contains(a)),
                    IpAddr::V6(a) => assert(self.v6@.dom().contains(a)),
                }
            }
            assert(self@.dom() == v4 + v6);
            vstd::set_lib::lemma_set_disjoint_lens(v4, v6);
        }
        n
    }
}

impl Default for LoginRateLimiter {
    fn default() -> (r: Self)
        ensures
            r@ == Map::<IpAddr, WindowEntry>::empty(),
            clock::is_reading(r.clock().origin()),
    {
        Self::new()
    }
}

/// The entries after failures of `ip` at these times, one after the other.
pub open spec fn after_failures(
    entries: Map<IpAddr, WindowEntry>,
    ip: IpAddr,
    times: Seq<u128>,
) -> Map<IpAddr, WindowEntry>
    decreases times.len(),
{
    if times.len() == 0 {
        entries
    } else {
        failed_at(after_failures(entries, ip, times.drop_last()), ip, times.last())
    }
}

/// Whether an attempt of `ip` at `now` is let through.
pub open spec fn allowed(entries: Map<IpAddr, WindowEntry>, ip: IpAddr, now: u128) -> bool {
    lets_through(live_entries(entries, now), ip)
}

/// Pruning keeps exactly the entries whose window has not expired, each of them unchanged, and
/// doing it again at the same time changes nothing.
pub proof fn law_pruning_keeps_the_live_entries<K>(entries: Map<K, WindowEntry>, now: u128)
    ensures
        forall|k: K| #[trigger]
            live_entries(entries, now).contains_key(k) <==> entries.contains_key(k) && now
                - entries[k].window_start < WINDOW,
        forall|k: K| #[trigger]
            live_entries(entries, now).contains_key(k) ==> live_entries(entries, now)[k]
                == entries[k],
        live_entries(live_entries(entries, now), now) == live_entries(entries, now),
{
    assert(live_entries(live_entries(entries, now), now) =~= live_entries(entries, now));
}

/// A minute after the failure that opened an address's window the address is let through, whatever
/// its failures were; before that it is let through exactly while there are fewer than five. An
/// address without failures is let through.
pub proof fn law_let_through_once_the_window_has_passed(
    entries: Map<IpAddr, WindowEntry>,
    ip: IpAddr,
    now: u128,
)
    ensures
        !entries.contains_key(ip) ==> allowed(entries, ip, now),
        entries.contains_key(ip) && now - entries[ip].window_start >= 60_000_000_000 ==> allowed(
            entries,
            ip,
            now,
        ),
        entries.contains_key(ip) && now - entries[ip].window_start < 60_000_000_000 ==> (allowed(
            entries,
            ip,
            now,
        ) <==> entries[ip].failures < 5),
{
}

/// A failure counts once, for its own address: it opens a window when none is open, adds one to the
/// window that is open without moving its start, and leaves every other open window as it is.
pub proof fn law_a_failure_counts_once(entries: Map<IpAddr, WindowEntry>, ip: IpAddr, now: u128)
    ensures
        failed_at(entries, ip, now).contains_key(ip),
        entries.contains_key(ip) && now - entries[ip].window_start < 60_000_000_000 ==> {
            &&& failed_at(entries, ip, now)[ip].window_start == entries[ip].window_start
            &&& entries[ip].failures < u32::MAX ==> failed_at(entries, ip, now)[ip].failures
                == entries[ip].failures + 1
            &&& entries[ip].failures == u32::MAX ==> failed_at(entries, ip, now)[ip].failures
                == u32::MAX
        },
        !(entries.contains_key(ip) && now - entries[ip].window_start < 60_000_000_000) ==> {
            &&& failed_at(entries, ip, now)[ip].window_start == now
            &&& failed_at(entries, ip, now)[ip].failures == 1
        },
        forall|other: IpAddr|
            other != ip ==> (#[trigger] failed_at(entries, ip, now).contains_key(other) <==> (
            entries.contains_key(other) && now - entries[other].window_start < 60_000_000_000)),
        forall|other: IpAddr|
            other != ip && #[trigger] failed_at(entries, ip, now).contains_key(other) ==> failed_at(
                entries,
                ip,
                now,
            )[other] == entries[other],
{
}

/// A success drops the window of its own address and leaves every other open window as it is.
pub proof fn law_a_success_drops_its_own_window(
    entries: Map<IpAddr, WindowEntry>,
    ip: IpAddr,
    now: u128,
)
    ensures
        !cleared_at(entries, ip, now).contains_key(ip),
        forall|other: IpAddr|
            other != ip ==> (#[trigger] cleared_at(entries, ip, now).contains_key(other) <==> (
            entries.contains_key(other) && now - entries[other].window_start < 60_000_000_000)),
        forall|other: IpAddr| #[trigger]
            cleared_at(entries, ip, now).contains_key(other) ==> cleared_at(entries, ip, now)[other]
                == entries[other],
{
}

/// The clock of a limiter is read at each attempt, so an address whose window was opened by a
/// failure is let through at every attempt that is read a minute or more after that failure.
pub proof fn law_attempts_are_judged_by_the_clock(
    entries: Map<IpAddr, WindowEntry>,
    ip: IpAddr,
    before: Clock,
    failed: Clock,
    asked: Clock,
)
    requires
        ticked(before, failed),
        ticked(failed, asked),
        !(entries.contains_key(ip) && failed.reading() - entries[ip].window_start < WINDOW),
    ensures
        before.reading() <= failed.reading() <= asked.reading(),
        exists|t: Instant|
            {
                &&& call_ensures(Instant::now, (), t)
                &&& asked.reading() >= #[trigger] clock::nanos_between(t, before.origin())
                &&& asked.reading() > clock::nanos_between(t, before.origin()) ==> asked.reading()
                    == failed.reading()
            },
        asked.reading() - failed.reading() >= 60_000_000_000 ==> allowed(
            failed_at(entries, ip, failed.reading()),
            ip,
            asked.reading(),
        ),
{
    clock::law_time_does_not_go_back(failed.reading(), before.origin(), before.reading());
    clock::law_time_does_not_go_back(asked.reading(), failed.origin(), failed.reading());
}

/// Failures within one window add up from its first one, which alone fixes when it ends.
pub proof fn law_failures_add_up(
    entries: Map<IpAddr, WindowEntry>,
    ip: IpAddr,
    times: Seq<u128>,
)
    requires
        times.len() > 0,
        !live_entries(entries, times[0]).contains_key(ip),
        forall|i: int| 0 <= i < times.len() ==> #[trigger] times[i] - times[0] < WINDOW,
    ensures
        after_failures(entries, ip, times).contains_key(ip),
        after_failures(entries, ip, times)[ip].window_start == times[0],
        after_failures(entries, ip, times)[ip].failures == if times.len() <= u32::MAX {
            times.len() as int
        } else {
            u32::MAX as int
        },
    decreases times.len(),
{
    reveal_with_fuel(after_failures, 2);
    if times.len() > 1 {
        let earlier = times.drop_last();
        assert forall|i: int| 0 <= i < earlier.len() implies #[trigger] earlier[i] - earlier[0]
            < WINDOW by {
            assert(earlier[i] == times[i]);
        }
        law_failures_add_up(entries, ip, earlier);
        assert(times.last() - times[0] < WINDOW);
    } else {
        assert(times.drop_last() == Seq::<u128>::empty());
    }
}

/// After failures within one window, an address is rejected exactly while there are at least
/// `MAX_FAILURES` of them and the window that the first one opened has not expired.
pub proof fn law_blocks_until_the_window_expires(
    entries: Map<IpAddr, WindowEntry>,
    ip: IpAddr,
    times: Seq<u128>,
    now: u128,
)
    requires
        times.len() > 0,
        !live_entries(entries, times[0]).contains_key(ip),
        forall|i: int| 0 <= i < times.len() ==> #[trigger] times[i] - times[0] < WINDOW,
    ensures
        allowed(after_failures(entries, ip, times), ip, now) <==> (times.len() < MAX_FAILURES || now
            - times[0] >= WINDOW),
{
    law_failures_add_up(entries, ip, times);
}

/// After a success the address is let through at any time.
pub proof fn law_success_clears_the_counter(
    entries: Map<IpAddr, WindowEntry>,
    ip: IpAddr,
    at: u128,
    now: u128,
)
    ensures
        allowed(cleared_at(entries, ip, at), ip, now),
{
}

/// What one address does, failing, succeeding or asking, does not change whether another one is
/// let through from then on.
pub proof fn law_addresses_are_independent(
    entries: Map<IpAddr, WindowEntry>,
    ip: IpAddr,
    other: IpAddr,
    at: u128,
    now: u128,
)
    requires
        ip != other,
        at <= now,
    ensures
        allowed(failed_at(entries, ip, at), other, now) == allowed(entries, other, now),
        allowed(cleared_at(entries, ip, at), other, now) == allowed(entries, other, now),
        allowed(live_entries(entries, at), other, now) == allowed(entries, other, now),
{
}

/// Asking is not an attempt: it does not change whether any address is let through from then on.
pub proof fn law_asking_does_not_count(
    entries: Map<IpAddr, WindowEntry>,
    ip: IpAddr,
    at: u128,
    now: u128,
)
    requires
        at <= now,
    ensures
        allowed(live_entries(entries, at), ip, now) == allowed(entries, ip, now),
{
}

/// After every access only entries whose window has not expired are left, so none is left once
/// every window has expired.
pub proof fn law_every_access_prunes(entries: Map<IpAddr, WindowEntry>, ip: IpAddr, now: u128)
    ensures
        forall|k: IpAddr| #[trigger]
            live_entries(entries, now).contains_key(k) ==> entries.contains_key(k) && live(
                entries[k],
                now,
            ),
        forall|k: IpAddr| #[trigger]
            cleared_at(entries, ip, now).contains_key(k) ==> entries.contains_key(k) && live(
                entries[k],
                now,
            ),
        forall|k: IpAddr| #[trigger]
            failed_at(entries, ip, now).contains_key(k) ==> live(failed_at(entries, ip, now)[k], now),
        (forall|k: IpAddr| #[trigger] entries.contains_key(k) ==> !live(entries[k], now))
            ==> live_entries(entries, now) == Map::<IpAddr, WindowEntry>::empty(),
{
    if forall|k: IpAddr| #[trigger] entries.contains_key(k) ==> !live(entries[k], now) {
        assert(live_entries(entries, now) =~= Map::<IpAddr, WindowEntry>::empty());
    }
}

/// Something that an address did at some time.
pub enum Event {
    Asked(IpAddr, u128),
    Failed(IpAddr, u128),
    Succeeded(IpAddr, u128),
}

impl Event {
    /// The address that did it.
    pub open spec fn ip(self) -> IpAddr {
        match self {
            Event::Asked(ip, _) => ip,
            Event::Failed(ip, _) => ip,
            Event::Succeeded(ip, _) => ip,
        }
    }

    /// When it was done.
    pub open spec fn at(self) -> u128 {
        match self {
            Event::Asked(_, at) => at,
            Event::Failed(_, at) => at,
            Event::Succeeded(_, at) => at,
        }
    }
}

/// The entries after an event.
pub open spec fn after_event(entries: Map<IpAddr, WindowEntry>, event: Event) -> Map<
    IpAddr,
    WindowEntry,
> {
    match event {
        Event::Asked(_, at) => live_entries(entries, at),
        Event::Failed(ip, at) => failed_at(entries, ip, at),
        Event::Succeeded(ip, at) => cleared_at(entries, ip, at),
    }
}

/// The entries of a new limiter after a history of events.
pub open spec fn after_history(history: Seq<Event>) -> Map<IpAddr, WindowEntry>
    decreases history.len(),
{
    if history.len() == 0 {
        Map::empty()
    } else {
        after_event(after_history(history.drop_last()), history.last())
    }
}

/// What `ip` did in a history.
pub open spec fn own_events(history: Seq<Event>, ip: IpAddr) -> Seq<Event> {
    history.filter(|e: Event| e.ip() == ip)
}

/// The events of a history are in the order of their times.
pub open spec fn in_order(history: Seq<Event>) -> bool {
    forall|i: int, j: int|
        0 <= i <= j < history.len() ==> (#[trigger] history[i]).at() <= (
        #[trigger] history[j]).at()
}

/// The entry of `ip` that counts at `now`.
pub open spec fn current(entries: Map<IpAddr, WindowEntry>, ip: IpAddr, now: u128) -> Option<
    WindowEntry,
> {
    if entries.contains_key(ip) && live(entries[ip], now) {
        Some(entries[ip])
    } else {
        None
    }
}

/// After any history, every entry goes back to a failure of its address that opened its window
/// less than `WINDOW` before the last event.
pub proof fn law_entries_are_recent_failures(history: Seq<Event>)
    requires
        history.len() > 0,
    ensures
        forall|ip: IpAddr| #[trigger]
            after_history(history).contains_key(ip) ==> {
                &&& live(after_history(history)[ip], history.last().at())
                &&& history.contains(Event::Failed(ip, after_history(history)[ip].window_start))
            },
    decreases history.len(),
{
    let earlier = history.drop_last();
    let event = history.last();
    let before = after_history(earlier);
    let after = after_history(history);
    if earlier.len() > 0 {
        law_entries_are_recent_failures(earlier);
    }
    assert forall|ip: IpAddr| #[trigger] after.contains_key(ip) implies live(after[ip], event.at())
        && history.contains(Event::Failed(ip, after[ip].window_start)) by {
        if before.contains_key(ip) && after[ip].window_start == before[ip].window_start && live(
            before[ip],
            event.at(),
        ) {
            let failure = Event::Failed(ip, before[ip].window_start);
            assert(earlier.contains(failure));
            let i = choose|i: int| 0 <= i < earlier.len() && earlier[i] == failure;
            assert(history[i] == failure);
        } else {
            assert(event == Event::Failed(ip, event.at()));
            assert(history[history.len() - 1] == event);
        }
    }
}

proof fn lemma_own_events_suffice(history: Seq<Event>, ip: IpAddr, now: u128)
    requires
        in_order(history),
        history.len() > 0 ==> history.last().at() <= now,
    ensures
        current(after_history(history), ip, now) == current(
            after_history(own_events(history, ip)),
            ip,
            now,
        ),
    decreases history.len(),
{
    reveal(Seq::filter);
    if history.len() > 0 {
        let earlier = history.drop_last();
        let event = history.last();
        let at = event.at();
        assert(in_order(earlier)) by {
            assert forall|i: int, j: int| 0 <= i <= j < earlier.len() implies (
            #[trigger] earlier[i]).at() <= (#[trigger] earlier[j]).at() by {
                assert(earlier[i] == history[i] && earlier[j] == history[j]);
            }
        }
        if earlier.len() > 0 {
            assert(earlier.last() == history[history.len() - 2]);
        }
        lemma_own_events_suffice(earlier, ip, now);
        lemma_own_events_suffice(earlier, ip, at);
        if event.ip() == ip {
            let own = own_events(history, ip);
            assert(own == own_events(earlier, ip).push(event));
            assert(own.drop_last() == own_events(earlier, ip));
        } else {
            assert(own_events(history, ip) == own_events(earlier, ip));
        }
    }
}

/// In any history whose events come in the order of their times, whether an address is let
/// through depends on what that address itself did, and on nothing that others did.
pub proof fn law_only_own_events_count(history: Seq<Event>, ip: IpAddr, now: u128)
    requires
        in_order(history),
        history.len() > 0 ==> history.last().at() <= now,
    ensures
        allowed(after_history(history), ip, now) == allowed(
            after_history(own_events(history, ip)),
            ip,
            now,
        ),
{
    lemma_own_events_suffice(history, ip, now);
}

/// A window of failures of one address.
pub struct Window {
    /// Time of the failure that opened it.
    pub start: u128,
    /// Failures in it.
    pub failures: nat,
}

/// The window has not expired at `now`.
pub open spec fn open_at(window: Option<Window>, now: u128) -> bool {
    window matches Some(w) && now - w.start < WINDOW
}

/// The window that a history leaves for `ip`: a failure counts in the window that is open, or
/// opens a new one; a success closes it. Questions, and what other addresses do, are ignored.
pub open spec fn window_of(history: Seq<Event>, ip: IpAddr) -> Option<Window>
    decreases history.len(),
{
    if history.len() == 0 {
        None
    } else {
        let window = window_of(history.drop_last(), ip);
        match history.last() {
            Event::Failed(who, at) => if who != ip {
                window
            } else if open_at(window, at) {
                Some(Window { failures: window->0.failures + 1, ..window->0 })
            } else {
                Some(Window { start: at, failures: 1 })
            },
            Event::Succeeded(who, _) => if who != ip {
                window
            } else {
                None
            },
            Event::Asked(_, _) => window,
        }
    }
}

proof fn lemma_entry_is_the_window(history: Seq<Event>, ip: IpAddr, now: u128)
    requires
        in_order(history),
        history.len() > 0 ==> history.last().at() <= now,
    ensures
        match current(after_history(history), ip, now) {
            Some(e) => {
                &&& open_at(window_of(history, ip), now)
                &&& e.window_start == window_of(history, ip)->0.start
                &&& e.failures == if window_of(history, ip)->0.failures <= u32::MAX {
                    window_of(history, ip)->0.failures as int
                } else {
                    u32::MAX as int
                }
            },
            None => !open_at(window_of(history, ip), now),
        },
    decreases history.len(),
{
    if history.len() > 0 {
        let earlier = history.drop_last();
        assert(in_order(earlier)) by {
            assert forall|i: int, j: int| 0 <= i <= j < earlier.len() implies (
            #[trigger] earlier[i]).at() <= (#[trigger] earlier[j]).at() by {
                assert(earlier[i] == history[i] && earlier[j] == history[j]);
            }
        }
        if earlier.len() > 0 {
            assert(earlier.last() == history[history.len() - 2]);
        }
        lemma_entry_is_the_window(earlier, ip, now);
        lemma_entry_is_the_window(earlier, ip, history.last().at());
    }
}

/// In any history whose events come in the order of their times, an address is rejected exactly
/// while its window is open and holds at least `MAX_FAILURES` failures.
pub proof fn law_rejected_while_the_window_is_full(history: Seq<Event>, ip: IpAddr, now: u128)
    requires
        in_order(history),
        history.len() > 0 ==> history.last().at() <= now,
    ensures
        !allowed(after_history(history), ip, now) <==> open_at(window_of(history, ip), now)
            && window_of(history, ip)->0.failures >= MAX_FAILURES,
{
    lemma_entry_is_the_window(history, ip, now);
}

} // verus!
