//! Provider-level rate limiter.
//!
//! Rate limiting for LLM API calls over a sliding window, with adaptive backoff
//! when providers return 429 (Too Many Requests). Prevents an agent from
//! overwhelming providers under load.

use crate::clock;
use vstd::prelude::*;

verus! {

/// Rate limiter with adaptive backoff.
///
/// Times are nanoseconds since the limiter was made.
pub struct ProviderRateLimiter {
    epoch: std::time::Instant,
    /// Maximum requests allowed in the time window.
    max_requests: u32,
    /// Time window for the rate limit.
    window: u128,
    /// Times of recent requests.
    request_times: Vec<u128>,
    /// End of the backoff after a 429 response.
    backoff_until: Option<u128>,
    /// Current backoff multiplier (doubles on each consecutive 429).
    backoff_multiplier: u32,
}

/// What a rate limiter remembers.
#[verifier::ext_equal]
pub struct LimiterView {
    pub max_requests: int,
    pub window: int,
    pub request_times: Seq<u128>,
    pub backoff_until: Option<u128>,
    pub backoff_multiplier: int,
}

/// The first backoff after a 429 response, five seconds.
pub const BASE_BACKOFF: u128 = 5_000_000_000;

/// The largest backoff multiplier.
pub const MAX_MULTIPLIER: u32 = 32;

/// A request at `t` lies in the window that ends at `now`.
pub open spec fn in_window(t: u128, window: int, now: u128) -> bool {
    t > now - window
}

/// The times that lie in the window that ends at `now`, in order.
pub open spec fn live(times: Seq<u128>, window: int, now: u128) -> Seq<u128>
    decreases times.len(),
{
    if times.len() == 0 {
        Seq::<u128>::empty()
    } else {
        let before = live(times.drop_last(), window, now);
        if in_window(times.last(), window, now) {
            before.push(times.last())
        } else {
            before
        }
    }
}

/// The time from `t` to `now`; zero where `t` lies later.
pub open spec fn elapsed(t: u128, now: u128) -> int {
    if t < now {
        now - t
    } else {
        0
    }
}

/// A backoff is in force at `now`.
pub open spec fn backing_off(backoff_until: Option<u128>, now: u128) -> bool {
    backoff_until matches Some(until) && now < until
}

/// How long a check at `now` is refused for; none where the request is allowed.
/// During a backoff it is refused until its end. Else the request is allowed
/// where fewer than the maximum lie in the window. Where not, it is refused
/// until the oldest of them leaves the window, or for a whole window where none
/// is ever allowed.
pub open spec fn check_wait(before: LimiterView, now: u128) -> Option<int> {
    let times = live(before.request_times, before.window, now);
    match before.backoff_until {
        Some(until) if now < until => Some(until - now),
        _ => if times.len() < before.max_requests {
            None
        } else if times.len() > 0 {
            Some(before.window - elapsed(times[0], now))
        } else {
            Some(before.window)
        },
    }
}

/// The limiter after a check at `now`: a backoff stays while it is in force.
/// Else it is over, requests that have left the window are forgotten, and an
/// allowed one is counted.
pub open spec fn checked(before: LimiterView, now: u128) -> LimiterView {
    let times = live(before.request_times, before.window, now);
    if backing_off(before.backoff_until, now) {
        before
    } else if check_wait(before, now) is None {
        LimiterView { request_times: times.push(now), backoff_until: None, ..before }
    } else {
        LimiterView { request_times: times, backoff_until: None, ..before }
    }
}

/// What a check at `now` does; `wait` is how long it is refused for.
pub open spec fn checks(
    before: LimiterView,
    now: u128,
    after: LimiterView,
    wait: Option<int>,
) -> bool {
    &&& after == checked(before, now)
    &&& wait == check_wait(before, now)
}

/// The end of a backoff that starts at `now`. No time lies beyond the longest
/// duration.
pub open spec fn backoff_end(now: u128, multiplier: int) -> u128 {
    let end = now + BASE_BACKOFF * multiplier;
    if end <= clock::max_nanos() {
        end as u128
    } else {
        clock::max_nanos() as u128
    }
}

/// What a 429 response at `now` does.
pub open spec fn backs_off(before: LimiterView, now: u128) -> LimiterView {
    LimiterView {
        backoff_until: Some(backoff_end(now, before.backoff_multiplier)),
        backoff_multiplier: if before.backoff_multiplier * 2 <= MAX_MULTIPLIER {
            before.backoff_multiplier * 2
        } else {
            MAX_MULTIPLIER as int
        },
        ..before
    }
}

/// A limiter that has seen nothing yet.
pub open spec fn fresh(max_requests: int, window: int) -> LimiterView {
    LimiterView {
        max_requests,
        window,
        request_times: Seq::<u128>::empty(),
        backoff_until: None,
        backoff_multiplier: 1,
    }
}

/// The limiter after a successful response.
pub open spec fn succeeded(before: LimiterView) -> LimiterView {
    LimiterView { backoff_multiplier: 1, ..before }
}

/// How long a request is refused for, in nanoseconds.
pub open spec fn refusal(r: Result<(), std::time::Duration>) -> Option<int> {
    match r {
        Ok(()) => None,
        Err(wait) => Some(clock::duration_nanos(wait) as int),
    }
}

#[derive(Debug, Clone)]
pub struct RateLimiterStats {
    pub active_requests: u32,
    pub max_requests: u32,
    pub is_backing_off: bool,
    pub backoff_multiplier: u32,
}

/// What the statistics at `now` say.
pub open spec fn describes(stats: RateLimiterStats, state: LimiterView, now: u128) -> bool {
    &&& stats.active_requests == live(state.request_times, state.window, now).len()
    &&& stats.max_requests == state.max_requests
    &&& stats.is_backing_off == match state.backoff_until {
        Some(until) => now < until,
        None => false,
    }
    &&& stats.backoff_multiplier == state.backoff_multiplier
}

proof fn lemma_live(times: Seq<u128>, window: int, now: u128)
    ensures
        live(times, window, now).len() <= times.len(),
        forall|k: int|
            0 <= k < live(times, window, now).len() ==> in_window(
                #[trigger] live(times, window, now)[k],
                window,
                now,
            ) && times.contains(live(times, window, now)[k]),
    decreases times.len(),
{
    if times.len() > 0 {
        let rest = times.drop_last();
        let before = live(rest, window, now);
        let all = live(times, window, now);
        lemma_live(rest, window, now);
        assert forall|k: int| 0 <= k < all.len() implies in_window(#[trigger] all[k], window, now)
            && times.contains(all[k]) by {
            if k < before.len() {
                assert(all[k] == before[k]);
                assert(rest.contains(before[k]));
                let m = choose|m: int| 0 <= m < rest.len() && rest[m] == before[k];
                assert(times[m] == all[k]);
            } else {
                assert(times[times.len() - 1] == all[k]);
            }
        }
    }
}

impl View for ProviderRateLimiter {
    type V = LimiterView;

    closed spec fn view(&self) -> LimiterView {
        LimiterView {
            max_requests: self.max_requests as int,
            window: self.window as int,
            request_times: self.request_times@,
            backoff_until: self.backoff_until,
            backoff_multiplier: self.backoff_multiplier as int,
        }
    }
}

impl ProviderRateLimiter {
    #[verifier::type_invariant]
    spec fn within_bounds(self) -> bool {
        &&& self.window <= clock::max_nanos()
        &&& self.request_times@.len() <= self.max_requests
        &&& 1 <= self.backoff_multiplier <= MAX_MULTIPLIER
        &&& self.backoff_until matches Some(until) ==> until <= clock::max_nanos()
    }

    /// The reading of the monotonic clock that times are counted from.
    pub closed spec fn started(&self) -> std::time::Instant {
        self.epoch
    }

    /// Create a new rate limiter.
    ///
    /// # Arguments
    /// * `max_requests` - Maximum requests per window (default: 50)
    /// * `window` - Time window (default: 60s)
    pub fn new(max_requests: u32, window: std::time::Duration) -> (r: Self)
        ensures
            r@ == fresh(max_requests as int, clock::duration_nanos(window) as int),
            clock::is_reading(r.started()),
    {
        ProviderRateLimiter {
            epoch: std::time::Instant::now(),
            max_requests,
            window: window.as_nanos(),
            request_times: Vec::new(),
            backoff_until: None,
            backoff_multiplier: 1,
        }
    }

    /// Check if a request is allowed at `now`.
    pub fn check_at(&mut self, now: u128) -> (r: Result<(), u128>)
        ensures
            match r {
                Ok(()) => checks(old(self)@, now, final(self)@, None),
                Err(wait) => checks(old(self)@, now, final(self)@, Some(wait as int)),
            },
            final(self)@.request_times.len() <= final(self)@.max_requests,
            final(self).started() == old(self).started(),
            r matches Err(wait) ==> wait <= clock::max_nanos(),
    {
        proof {
            use_type_invariant(&*self);
        }
        // Check backoff first
        if let Some(until) = self.backoff_until {
            if now < until {
                return Err(until - now);
            }
            // Backoff expired, clear it
            self.backoff_until = None;
        }
        // Prune old timestamps outside the window
        let ghost all = self.request_times@;
        let ghost window = self.window as int;
        let mut times: Vec<u128> = Vec::new();
        for k in 0..self.request_times.len()
            invariant
                all == self.request_times@,
                window == self.window,
                times@ == live(all.take(k as int), window, now),
        {
            let t: u128 = self.request_times[k];
            proof {
                assert(all.take(k + 1).drop_last() =~= all.take(k as int));
                assert(all.take(k + 1).last() == t);
            }
            if t > now || now - t < self.window {
                times.push(t);
            }
        }
        proof {
            assert(all.take(all.len() as int) =~= all);
            lemma_live(all, window, now);
        }
        // Check if under limit
        if times.len() >= self.max_requests as usize {
            let wait: u128 = if times.len() > 0 {
                proof {
                    assert(in_window(times@[0], window, now));
                }
                let oldest: u128 = times[0];
                let passed: u128 = if oldest < now {
                    now - oldest
                } else {
                    0
                };
                self.window - passed
            } else {
                self.window
            };
            self.request_times = times;
            return Err(wait);
        }
        // Record this request
        times.push(now);
        self.request_times = times;
        Ok(())
    }

    /// Check if a request is allowed right now.
    /// Returns `Ok(())` if allowed, or `Err(wait_duration)` if rate limited.
    pub fn check(&mut self) -> (r: Result<(), std::time::Duration>)
        ensures
            exists|now: u128|
                clock::have_passed(old(self).started(), now) && #[trigger] checks(
                    old(self)@,
                    now,
                    final(self)@,
                    refusal(r),
                ),
            final(self).started() == old(self).started(),
    {
        let now: u128 = clock::nanos_since(self.epoch);
        let ghost before = self@;
        let outcome = self.check_at(now);
        match outcome {
            Ok(()) => {
                proof {
                    assert(checks(before, now, self@, None));
                }
                Ok(())
            },
            Err(wait) => {
                let waited = clock::duration_of(wait);
                proof {
                    assert(checks(before, now, self@, Some(clock::duration_nanos(waited) as int)));
                }
                Err(waited)
            },
        }
    }

    /// Record a 429 response at `now` — triggers adaptive backoff.
    pub fn record_rate_limited_at(&mut self, now: u128)
        requires
            now <= clock::max_nanos(),
        ensures
            final(self)@ == backs_off(old(self)@, now),
            final(self).started() == old(self).started(),
    {
        proof {
            use_type_invariant(&*self);
        }
        let multiplier: u32 = self.backoff_multiplier;
        let backoff: u128 = BASE_BACKOFF * multiplier as u128;
        let end: u128 = now + backoff;
        let limit: u128 = 18_446_744_073_709_551_615_999_999_999;
        self.backoff_until = Some(if end <= limit {
            end
        } else {
            limit
        });
        self.backoff_multiplier = if multiplier * 2 <= MAX_MULTIPLIER {
            multiplier * 2
        } else {
            MAX_MULTIPLIER
        };  // cap at 32x
    }

    /// Record a 429 response — triggers adaptive backoff.
    pub fn record_rate_limited(&mut self)
        ensures
            exists|now: u128|
                now <= clock::max_nanos() && clock::have_passed(old(self).started(), now)
                    && final(self)@ == #[trigger] backs_off(old(self)@, now),
            final(self).started() == old(self).started(),
    {
        let now: u128 = clock::nanos_since(self.epoch);
        self.record_rate_limited_at(now);
    }

    /// Record a successful response — resets backoff multiplier.
    pub fn record_success(&mut self)
        ensures
            final(self)@ == succeeded(old(self)@),
            final(self).started() == old(self).started(),
    {
        proof {
            use_type_invariant(&*self);
        }
        self.backoff_multiplier = 1;
    }

    /// The state at `now`, for diagnostics.
    pub fn stats_at(&self, now: u128) -> (r: RateLimiterStats)
        ensures
            describes(r, self@, now),
    {
        proof {
            use_type_invariant(self);
        }
        let ghost all = self.request_times@;
        let ghost window = self.window as int;
        let mut active: u32 = 0;
        for k in 0..self.request_times.len()
            invariant
                all == self.request_times@,
                window == self.window,
                all.len() <= self.max_requests,
                active <= k,
                active == live(all.take(k as int), window, now).len(),
        {
            let t: u128 = self.request_times[k];
            proof {
                assert(all.take(k + 1).drop_last() =~= all.take(k as int));
                assert(all.take(k + 1).last() == t);
            }
            if t > now || now - t < self.window {
                active = active + 1;
            }
        }
        proof {
            assert(all.take(all.len() as int) =~= all);
        }
        RateLimiterStats {
            active_requests: active,
            max_requests: self.max_requests,
            is_backing_off: match self.backoff_until {
                Some(until) => now < until,
                None => false,
            },
            backoff_multiplier: self.backoff_multiplier,
        }
    }

    /// Get current state for diagnostics.
    pub fn stats(&self) -> (r: RateLimiterStats)
        ensures
            exists|now: u128|
                clock::have_passed(self.started(), now) && #[trigger] describes(r, self@, now),
    {
        let now: u128 = clock::nanos_since(self.epoch);
        self.stats_at(now)
    }
}

impl Default for ProviderRateLimiter {
    fn default() -> (r: Self)
        ensures
            r@ == fresh(50, 60_000_000_000),
    {
        Self::new(50, std::time::Duration::from_secs(60))
    }
}

/// Time that passes lets requests through again: a check is allowed where every
/// request that is remembered lies a whole window back, where no backoff lasts
/// beyond it, and where any request can be allowed.
pub proof fn law_an_empty_window_lets_requests_through(before: LimiterView, now: u128)
    requires
        before.max_requests > 0,
        forall|k: int|
            0 <= k < before.request_times.len() ==> #[trigger] before.request_times[k]
                + before.window <= now,
        before.backoff_until matches Some(until) ==> until <= now,
    ensures
        check_wait(before, now) is None,
        checked(before, now).request_times == seq![now],
        checked(before, now).backoff_until is None,
{
    lemma_nothing_live(before.request_times, before.window, now);
    assert(live(before.request_times, before.window, now).push(now) =~= seq![now]);
}

proof fn lemma_nothing_live(times: Seq<u128>, window: int, now: u128)
    requires
        forall|k: int| 0 <= k < times.len() ==> #[trigger] times[k] + window <= now,
    ensures
        live(times, window, now) =~= Seq::<u128>::empty(),
    decreases times.len(),
{
    if times.len() > 0 {
        let rest = times.drop_last();
        assert forall|k: int| 0 <= k < rest.len() implies #[trigger] rest[k] + window <= now by {
            assert(times[k] + window <= now);
        }
        lemma_nothing_live(rest, window, now);
        assert(times[times.len() - 1] + window <= now);
    }
}

/// After the k-th 429 response in a row, with no success between them, a limiter
/// is closed for five seconds, then ten, then twenty and so on, at most for 160:
/// as long as that, and open after it. A success starts anew with five.
pub proof fn law_backoffs_double(before: LimiterView, at: u128, now: u128)
    requires
        1 <= before.backoff_multiplier <= 32,
        at + 160_000_000_000 <= clock::max_nanos(),
        before.max_requests > 0,
        before.request_times.len() == 0,
    ensures
        check_wait(backs_off(before, at), now) is None <==> now >= at + 5_000_000_000
            * before.backoff_multiplier,
        backs_off(before, at).backoff_multiplier == if before.backoff_multiplier <= 16 {
            2 * before.backoff_multiplier
        } else {
            32
        },
        check_wait(backs_off(succeeded(before), at), now) is None <==> now >= at + 5_000_000_000,
        backs_off(succeeded(before), at).backoff_multiplier == 2,
{
    assert(live(before.request_times, before.window, now) =~= Seq::<u128>::empty());
}

/// An allowed request is one of at most `max_requests` in the window that ends
/// with it: those counted before it that lie in the window are all counted
/// still, and no more than the maximum are.
pub proof fn law_window_is_never_overfull(before: LimiterView, now: u128, after: LimiterView)
    requires
        checks(before, now, after, None),
        before.window > 0,
    ensures
        after.request_times == live(before.request_times, before.window, now).push(now),
        after.request_times.len() <= before.max_requests,
        forall|k: int|
            0 <= k < after.request_times.len() ==> in_window(
                #[trigger] after.request_times[k],
                before.window,
                now,
            ),
{
    lemma_live(before.request_times, before.window, now);
}

/// Nothing is allowed before a backoff ends, and nothing is counted meanwhile.
pub proof fn law_backoff_refuses(
    before: LimiterView,
    limited_at: u128,
    now: u128,
    after: LimiterView,
    wait: Option<int>,
)
    requires
        limited_at <= clock::max_nanos(),
        before.backoff_multiplier >= 1,
        limited_at <= now < backoff_end(limited_at, before.backoff_multiplier),
        checks(backs_off(before, limited_at), now, after, wait),
    ensures
        wait == Some(backoff_end(limited_at, before.backoff_multiplier) - now),
        after == backs_off(before, limited_at),
{
}

/// A limiter that allows no request refuses every one.
pub proof fn law_zero_limit_refuses(
    before: LimiterView,
    now: u128,
    after: LimiterView,
    wait: Option<int>,
)
    requires
        before.max_requests == 0,
        checks(before, now, after, wait),
    ensures
        wait is Some,
{
}

/// A request that waited as long as it was told to is not refused again for
/// the same reason: the backoff is over, or the oldest request has left the
/// window.
pub proof fn law_waiting_helps(before: LimiterView, now: u128, after: LimiterView, wait: int)
    requires
        checks(before, now, after, Some(wait)),
        before.max_requests > 0,
        forall|k: int| 0 <= k < before.request_times.len() ==> #[trigger] before.request_times[k] <= now,
    ensures
        match after.backoff_until {
            Some(until) => now + wait == until,
            None => after.request_times[0] <= now + wait - after.window,
        },
{
    lemma_live(before.request_times, before.window, now);
    if after.backoff_until is None {
        let times = live(before.request_times, before.window, now);
        assert(before.request_times.contains(times[0]));
        let m = choose|m: int|
            0 <= m < before.request_times.len() && before.request_times[m] == times[0];
        assert(before.request_times[m] <= now);
    }
}

// ---------------------------------------------------------------------------
// Laws of a limiter over time
// ---------------------------------------------------------------------------

/// What a limiter is told or asked.
pub enum LimiterEvent {
    /// A check at a time.
    Check(u128),
    /// A 429 response at a time.
    RateLimited(u128),
    /// A successful response.
    Succeeded,
}

/// The limiter after an event.
pub open spec fn after_event(before: LimiterView, event: LimiterEvent) -> LimiterView {
    match event {
        LimiterEvent::Check(at) => checked(before, at),
        LimiterEvent::RateLimited(at) => backs_off(before, at),
        LimiterEvent::Succeeded => succeeded(before),
    }
}

/// The limiter after all of the events.
pub open spec fn after_events(start: LimiterView, events: Seq<LimiterEvent>) -> LimiterView
    decreases events.len(),
{
    if events.len() == 0 {
        start
    } else {
        after_event(after_events(start, events.drop_last()), events.last())
    }
}

/// The times of the checks among the events that were allowed, in order.
pub open spec fn allowed_times(start: LimiterView, events: Seq<LimiterEvent>) -> Seq<u128>
    decreases events.len(),
{
    if events.len() == 0 {
        Seq::<u128>::empty()
    } else {
        let earlier = allowed_times(start, events.drop_last());
        match events.last() {
            LimiterEvent::Check(at) => if check_wait(
                after_events(start, events.drop_last()),
                at,
            ) is None {
                earlier.push(at)
            } else {
                earlier
            },
            _ => earlier,
        }
    }
}

/// The backoff multiplier after the events: it doubles with each 429 response
/// up to its largest value, and a successful response sets it back.
pub open spec fn multiplier_of(events: Seq<LimiterEvent>) -> int
    decreases events.len(),
{
    if events.len() == 0 {
        1
    } else {
        let earlier = multiplier_of(events.drop_last());
        match events.last() {
            LimiterEvent::Check(_) => earlier,
            LimiterEvent::RateLimited(_) => if earlier * 2 <= MAX_MULTIPLIER {
                earlier * 2
            } else {
                MAX_MULTIPLIER as int
            },
            LimiterEvent::Succeeded => 1,
        }
    }
}

/// The end of the backoff that the latest 429 response among the events
/// started; none without such a response.
pub open spec fn latest_backoff(events: Seq<LimiterEvent>) -> Option<u128>
    decreases events.len(),
{
    if events.len() == 0 {
        None
    } else {
        match events.last() {
            LimiterEvent::RateLimited(at) => Some(
                backoff_end(at, multiplier_of(events.drop_last())),
            ),
            _ => latest_backoff(events.drop_last()),
        }
    }
}

/// The event does not lie after `now`.
pub open spec fn is_by(event: LimiterEvent, now: u128) -> bool {
    match event {
        LimiterEvent::Check(at) => at <= now,
        LimiterEvent::RateLimited(at) => at <= now,
        LimiterEvent::Succeeded => true,
    }
}

/// None of the events lies after `now`.
pub open spec fn all_by(events: Seq<LimiterEvent>, now: u128) -> bool {
    forall|i: int| 0 <= i < events.len() ==> is_by(#[trigger] events[i], now)
}

/// Time does not run backwards from one event to the next.
pub open spec fn in_order(events: Seq<LimiterEvent>) -> bool
    decreases events.len(),
{
    events.len() == 0 || {
        &&& in_order(events.drop_last())
        &&& match events.last() {
            LimiterEvent::Check(at) => all_by(events.drop_last(), at),
            LimiterEvent::RateLimited(at) => all_by(events.drop_last(), at),
            LimiterEvent::Succeeded => true,
        }
    }
}

/// The times do not decrease.
pub open spec fn ascending(times: Seq<u128>) -> bool {
    forall|i: int, k: int|
        0 <= i < k < times.len() ==> #[trigger] times[i] <= #[trigger] times[k]
}

/// What has left a window does not come back into a later one.
proof fn lemma_live_of_live(times: Seq<u128>, window: int, then: u128, now: u128)
    requires
        then <= now,
    ensures
        live(live(times, window, then), window, now) == live(times, window, now),
    decreases times.len(),
{
    if times.len() > 0 {
        let before = live(times.drop_last(), window, then);
        lemma_live_of_live(times.drop_last(), window, then, now);
        assert(before.push(times.last()).drop_last() =~= before);
    }
}

proof fn lemma_live_ascends(times: Seq<u128>, window: int, now: u128)
    requires
        ascending(times),
    ensures
        ascending(live(times, window, now)),
    decreases times.len(),
{
    if times.len() > 0 {
        let rest = times.drop_last();
        let before = live(rest, window, now);
        let all = live(times, window, now);
        assert forall|i: int, k: int| 0 <= i < k < rest.len() implies #[trigger] rest[i]
            <= #[trigger] rest[k] by {
            assert(times[i] <= times[k]);
        }
        lemma_live_ascends(rest, window, now);
        lemma_live(rest, window, now);
        assert forall|i: int, k: int| 0 <= i < k < all.len() implies #[trigger] all[i]
            <= #[trigger] all[k] by {
            assert(all[i] == before[i]);
            if k < before.len() {
                assert(before[i] <= before[k]);
            } else {
                assert(rest.contains(before[i]));
                let m = choose|m: int| 0 <= m < rest.len() && rest[m] == before[i];
                assert(times[m] <= times[times.len() - 1]);
            }
        }
    }
}

proof fn lemma_allowed_times(start: LimiterView, events: Seq<LimiterEvent>, now: u128)
    requires
        in_order(events),
        all_by(events, now),
    ensures
        ascending(allowed_times(start, events)),
        forall|k: int|
            0 <= k < allowed_times(start, events).len() ==> #[trigger] allowed_times(
                start,
                events,
            )[k] <= now,
    decreases events.len(),
{
    if events.len() > 0 {
        let earlier = events.drop_last();
        lemma_earlier(events, now);
        lemma_allowed_times(start, earlier, now);
        if let LimiterEvent::Check(at) = events.last() {
            assert(is_by(events[events.len() - 1], now));
            lemma_allowed_times(start, earlier, at);
        }
    }
}

/// All events but the last lie by any time by which all do.
proof fn lemma_earlier(events: Seq<LimiterEvent>, now: u128)
    requires
        events.len() > 0,
        all_by(events, now),
    ensures
        all_by(events.drop_last(), now),
{
    let earlier = events.drop_last();
    assert forall|i: int| 0 <= i < earlier.len() implies is_by(#[trigger] earlier[i], now) by {
        assert(is_by(events[i], now));
    }
}

/// What a limiter remembers of its past is enough for all that follows.
proof fn lemma_memory(
    max_requests: int,
    window: int,
    events: Seq<LimiterEvent>,
    now: u128,
)
    requires
        0 <= max_requests,
        in_order(events),
        all_by(events, now),
    ensures
        ({
            let start = fresh(max_requests, window);
            let state = after_events(start, events);
            &&& state.max_requests == max_requests
            &&& state.window == window
            &&& state.backoff_multiplier == multiplier_of(events)
            &&& state.request_times.len() <= max_requests
            &&& live(state.request_times, window, now) == live(
                allowed_times(start, events),
                window,
                now,
            )
            &&& backing_off(state.backoff_until, now) == backing_off(latest_backoff(events), now)
            &&& backing_off(state.backoff_until, now) ==> state.backoff_until == latest_backoff(
                events,
            )
        }),
    decreases events.len(),
{
    let start = fresh(max_requests, window);
    if events.len() > 0 {
        let earlier = events.drop_last();
        let before = after_events(start, earlier);
        lemma_earlier(events, now);
        lemma_memory(max_requests, window, earlier, now);
        if let LimiterEvent::Check(at) = events.last() {
            assert(is_by(events[events.len() - 1], now));
            lemma_memory(max_requests, window, earlier, at);
            let kept = live(before.request_times, window, at);
            let allowed = allowed_times(start, earlier);
            lemma_live(before.request_times, window, at);
            lemma_live_of_live(before.request_times, window, at, now);
            assert(kept.push(at).drop_last() =~= kept);
            assert(allowed.push(at).drop_last() =~= allowed);
        }
    }
}

/// Over any history of a limiter in which time does not run backwards, a check
/// is allowed exactly where the backoff of the latest 429 response is over and
/// fewer than the maximum of the checks allowed before lie in the window. A
/// refused one is told the time until that backoff ends or, without one in
/// force, until the oldest of those checks leaves the window. That time is not
/// zero where a request can be allowed at all. A refused check is not counted.
pub proof fn law_check_goes_by_the_whole_history(
    max_requests: int,
    window: int,
    events: Seq<LimiterEvent>,
    now: u128,
)
    requires
        0 <= max_requests,
        in_order(events),
        all_by(events, now),
    ensures
        ({
            let start = fresh(max_requests, window);
            let wait = check_wait(after_events(start, events), now);
            let recent = live(allowed_times(start, events), window, now);
            let until = latest_backoff(events);
            &&& wait is None <==> !backing_off(until, now) && recent.len() < max_requests
            &&& backing_off(until, now) ==> wait == Some(until->Some_0 - now)
            &&& !backing_off(until, now) && wait is Some ==> wait == Some(
                if recent.len() > 0 {
                    recent[0] + window - now
                } else {
                    window
                },
            )
            &&& max_requests > 0 && wait is Some ==> wait->Some_0 > 0
            &&& allowed_times(start, events.push(LimiterEvent::Check(now))) == if wait is None {
                allowed_times(start, events).push(now)
            } else {
                allowed_times(start, events)
            }
            &&& ascending(recent)
            &&& forall|k: int|
                0 <= k < recent.len() ==> now - window < #[trigger] recent[k] <= now
        }),
{
    let start = fresh(max_requests, window);
    let allowed = allowed_times(start, events);
    let recent = live(allowed, window, now);
    lemma_memory(max_requests, window, events, now);
    lemma_allowed_times(start, events, now);
    lemma_live(allowed, window, now);
    lemma_live_ascends(allowed, window, now);
    assert(events.push(LimiterEvent::Check(now)).drop_last() =~= events);
    assert forall|k: int| 0 <= k < recent.len() implies now - window < #[trigger] recent[k]
        <= now by {
        assert(allowed.contains(recent[k]));
        let m = choose|m: int| 0 <= m < allowed.len() && allowed[m] == recent[k];
        assert(allowed[m] <= now);
    }
}

/// At no time do more than the maximum of the checks that were ever allowed lie
/// in the window.
pub proof fn law_no_window_of_a_history_is_overfull(
    max_requests: int,
    window: int,
    events: Seq<LimiterEvent>,
    now: u128,
)
    requires
        0 <= max_requests,
        in_order(events),
        all_by(events, now),
    ensures
        live(allowed_times(fresh(max_requests, window), events), window, now).len()
            <= max_requests,
{
    let state = after_events(fresh(max_requests, window), events);
    lemma_memory(max_requests, window, events, now);
    lemma_live(state.request_times, window, now);
}

/// The statistics count the requests that lie less than a window back, and say
/// whether the time up to which requests are held back is still to come; limit and
/// multiplier are those of the limiter.
pub proof fn law_statistics_tell_the_state(
    stats: RateLimiterStats,
    state: LimiterView,
    now: u128,
    until: u128,
)
    requires
        describes(stats, state, now),
    ensures
        stats.max_requests == state.max_requests,
        stats.backoff_multiplier == state.backoff_multiplier,
        state.backoff_until is None ==> !stats.is_backing_off,
        state.backoff_until == Some(until) && now < until ==> stats.is_backing_off,
        state.backoff_until == Some(until) && now >= until ==> !stats.is_backing_off,
        (forall|k: int|
            0 <= k < state.request_times.len() ==> #[trigger] state.request_times[k] + state.window
                <= now) ==> stats.active_requests == 0,
        stats.active_requests <= state.request_times.len(),
        (forall|k: int|
            0 <= k < state.request_times.len() ==> #[trigger] state.request_times[k] + state.window
                > now) ==> stats.active_requests == state.request_times.len(),
{
    lemma_live_is_counted(state.request_times, state.window, now);
    if forall|k: int|
        0 <= k < state.request_times.len() ==> #[trigger] state.request_times[k] + state.window
            <= now {
        lemma_nothing_live(state.request_times, state.window, now);
    }
}

proof fn lemma_live_is_counted(times: Seq<u128>, window: int, now: u128)
    ensures
        live(times, window, now).len() <= times.len(),
        (forall|k: int| 0 <= k < times.len() ==> #[trigger] times[k] + window > now) ==> live(
            times,
            window,
            now,
        ).len() == times.len(),
    decreases times.len(),
{
    if times.len() > 0 {
        let rest = times.drop_last();
        lemma_live_is_counted(rest, window, now);
        if forall|k: int| 0 <= k < times.len() ==> #[trigger] times[k] + window > now {
            assert forall|k: int| 0 <= k < rest.len() implies #[trigger] rest[k] + window > now by {
                assert(times[k] + window > now);
            }
            assert(times[times.len() - 1] + window > now);
        }
    }
}

/// A request that is let through is not refused; one that is not is refused for as
/// long as it is told to wait.
pub proof fn law_refusals_tell_the_wait(wait: std::time::Duration)
    ensures
        refusal(Ok(())) is None,
        refusal(Err(wait)) == Some(clock::duration_nanos(wait) as int),
{
}

} // verus!
