//! Prompt cache break detection.
//!
//! Tracks cache_read_input_tokens and cache_creation_input_tokens across
//! LLM calls to detect when the prompt cache breaks, so that operators can
//! diagnose cost spikes.

use vstd::prelude::*;

verus! {

/// Tracks prompt cache hit/miss patterns across LLM calls.
pub struct CacheTracker {
    /// Previous turn's cache_read tokens (baseline for comparison).
    prev_cache_read: Option<u64>,
    /// Previous turn's total input tokens.
    prev_input_tokens: Option<u64>,
    /// Number of consecutive cache hits.
    consecutive_hits: u32,
    /// Number of cache breaks detected this session.
    total_breaks: u32,
    /// Number of total LLM calls tracked.
    total_calls: u32,
}

/// What a tracker remembers.
#[verifier::ext_equal]
pub struct TrackerView {
    pub prev_cache_read: Option<u64>,
    pub prev_input_tokens: Option<u64>,
    pub consecutive_hits: int,
    pub total_breaks: int,
    pub total_calls: int,
}

/// The share of calls that kept the cache: `hits` of `comparisons`. Where
/// nothing was compared yet the rate is 100 percent.
#[derive(Debug, Clone, Copy, PartialEq, Eq, Structural)]
pub struct HitRate {
    pub hits: u32,
    pub comparisons: u32,
}

/// Result of analyzing a cache event.
#[derive(Debug, Clone)]
pub struct CacheAnalysis {
    pub is_cache_break: bool,
    pub cache_read_tokens: u64,
    pub cache_creation_tokens: u64,
    pub hit_rate: HitRate,
    pub consecutive_hits: u32,
    pub total_breaks: u32,
}

/// The cache breaks where the tokens read from it drop by more than 5% or by
/// more than 2000 against the turn before.
pub open spec fn is_break(prev_cache_read: Option<u64>, cache_read: u64) -> bool {
    match prev_cache_read {
        Some(prev) => cache_read < prev && (prev - cache_read > 2000 || (prev - cache_read) * 100
            > 5 * prev),
        None => false,
    }
}

/// The tracker after a call.
pub open spec fn recorded(before: TrackerView, input_tokens: u64, cache_read: u64) -> TrackerView {
    let broken = is_break(before.prev_cache_read, cache_read);
    TrackerView {
        prev_cache_read: Some(cache_read),
        prev_input_tokens: Some(input_tokens),
        consecutive_hits: if broken {
            0
        } else if before.prev_cache_read is Some {
            before.consecutive_hits + 1
        } else {
            before.consecutive_hits
        },
        total_breaks: if broken {
            before.total_breaks + 1
        } else {
            before.total_breaks
        },
        total_calls: before.total_calls + 1,
    }
}

/// The tracker after a reset: the counts of the session stay.
pub open spec fn forgotten(before: TrackerView) -> TrackerView {
    TrackerView { prev_cache_read: None, prev_input_tokens: None, consecutive_hits: 0, ..before }
}

/// A tracker that has seen no call yet.
pub open spec fn untouched() -> TrackerView {
    TrackerView {
        prev_cache_read: None,
        prev_input_tokens: None,
        consecutive_hits: 0,
        total_breaks: 0,
        total_calls: 0,
    }
}

/// The share of calls after the first one that kept the cache.
pub open spec fn rate_of(state: TrackerView) -> HitRate {
    if state.total_calls > 1 {
        HitRate {
            hits: (state.total_calls - 1 - state.total_breaks) as u32,
            comparisons: (state.total_calls - 1) as u32,
        }
    } else {
        HitRate { hits: 0, comparisons: 0 }
    }
}

/// The counts of a tracker: a break needs a turn before it, and so does a hit.
pub open spec fn counts_fit(state: TrackerView) -> bool {
    &&& 0 <= state.total_breaks <= state.total_calls <= u32::MAX
    &&& state.total_calls > 0 ==> state.total_breaks < state.total_calls
    &&& 0 <= state.consecutive_hits <= state.total_calls
}

impl View for CacheTracker {
    type V = TrackerView;

    closed spec fn view(&self) -> TrackerView {
        TrackerView {
            prev_cache_read: self.prev_cache_read,
            prev_input_tokens: self.prev_input_tokens,
            consecutive_hits: self.consecutive_hits as int,
            total_breaks: self.total_breaks as int,
            total_calls: self.total_calls as int,
        }
    }
}

impl CacheTracker {
    /// A break needs a turn before it, and so does a hit.
    #[verifier::type_invariant]
    spec fn counts_agree(self) -> bool {
        &&& self.total_calls == 0 ==> self.prev_cache_read is None && self.total_breaks == 0
        &&& self.total_calls > 0 ==> self.total_breaks <= self.total_calls - 1
        &&& self.consecutive_hits <= self.total_calls
    }

    pub fn new() -> (r: Self)
        ensures
            r@ == untouched(),
    {
        CacheTracker {
            prev_cache_read: None,
            prev_input_tokens: None,
            consecutive_hits: 0,
            total_breaks: 0,
            total_calls: 0,
        }
    }

    /// Record token usage from an LLM call and detect cache breaks.
    ///
    /// A cache break is detected when:
    /// - cache_read_tokens drops by >5% compared to previous turn, OR
    /// - cache_read_tokens drops by >2000 absolute tokens
    /// AND we had a previous baseline to compare against.
    pub fn record(
        &mut self,
        input_tokens: u64,
        cache_read_tokens: u64,
        cache_creation_tokens: u64,
    ) -> (r: CacheAnalysis)
        requires
            old(self)@.total_calls < u32::MAX,
        ensures
            final(self)@ == recorded(old(self)@, input_tokens, cache_read_tokens),
            counts_fit(old(self)@),
            counts_fit(final(self)@),
            r == (CacheAnalysis {
                is_cache_break: is_break(old(self)@.prev_cache_read, cache_read_tokens),
                cache_read_tokens,
                cache_creation_tokens,
                hit_rate: rate_of(final(self)@),
                consecutive_hits: final(self)@.consecutive_hits as u32,
                total_breaks: final(self)@.total_breaks as u32,
            }),
    {
        proof {
            use_type_invariant(&*self);
        }
        let is_cache_break = match self.prev_cache_read {
            Some(prev) => {
                if cache_read_tokens < prev {
                    let drop: u64 = prev - cache_read_tokens;
                    drop > 2000 || drop as u128 * 100 > 5 * (prev as u128)
                } else {
                    false
                }
            },
            None => false,  // first call, no baseline
        };
        let total_breaks: u32 = if is_cache_break {
            self.total_breaks + 1
        } else {
            self.total_breaks
        };
        let consecutive_hits: u32 = if is_cache_break {
            0
        } else if self.prev_cache_read.is_some() {
            self.consecutive_hits + 1
        } else {
            self.consecutive_hits
        };
        let total_calls: u32 = self.total_calls + 1;
        *self =
        CacheTracker {
            prev_cache_read: Some(cache_read_tokens),
            prev_input_tokens: Some(input_tokens),
            consecutive_hits,
            total_breaks,
            total_calls,
        };
        CacheAnalysis {
            is_cache_break,
            cache_read_tokens,
            cache_creation_tokens,
            hit_rate: self.hit_rate(),
            consecutive_hits,
            total_breaks,
        }
    }

    /// Get the current cache hit rate.
    pub fn hit_rate(&self) -> (r: HitRate)
        ensures
            r == rate_of(self@),
            counts_fit(self@),
            r.hits <= r.comparisons,
    {
        proof {
            use_type_invariant(self);
        }
        if self.total_calls > 1 {
            HitRate {
                hits: self.total_calls - 1 - self.total_breaks,
                comparisons: self.total_calls - 1,
            }
        } else {
            HitRate { hits: 0, comparisons: 0 }
        }
    }

    /// Reset tracking state (call after compaction or /clear).
    pub fn reset(&mut self)
        ensures
            final(self)@ == forgotten(old(self)@),
            counts_fit(final(self)@),
    {
        proof {
            use_type_invariant(&*self);
        }
        // Keep total_breaks and total_calls for session-level stats
        *self =
        CacheTracker {
            prev_cache_read: None,
            prev_input_tokens: None,
            consecutive_hits: 0,
            total_breaks: self.total_breaks,
            total_calls: self.total_calls,
        };
    }
}

impl Default for CacheTracker {
    fn default() -> (r: Self)
        ensures
            r@ == untouched(),
    {
        Self::new()
    }
}

/// Without a turn before it no call breaks the cache, so the first call after a
/// reset does not.
pub proof fn law_no_break_without_baseline(cache_read: u64)
    ensures
        !is_break(None, cache_read),
{
}

/// A turn that reads as much as the one before or more does not break the
/// cache, and no turn breaks it that a larger drop would not.
pub proof fn law_breaks_grow_with_the_drop(prev: u64, cache_read: u64, less: u64)
    requires
        less <= cache_read,
    ensures
        cache_read >= prev ==> !is_break(Some(prev), cache_read),
        is_break(Some(prev), cache_read) ==> is_break(Some(prev), less),
{
}

/// A reset leaves the hit rate as it is. Whatever the next call reads, it does
/// not break the cache, and it counts as no hit and as no break.
pub proof fn law_reset_clears_the_baseline(before: TrackerView, input_tokens: u64, cache_read: u64)
    ensures
        rate_of(forgotten(before)) == rate_of(before),
        !is_break(forgotten(before).prev_cache_read, cache_read),
        ({
            let after = recorded(forgotten(before), input_tokens, cache_read);
            &&& after.consecutive_hits == 0
            &&& after.total_breaks == before.total_breaks
        }),
{
}

/// What a tracker is told.
pub enum TrackerEvent {
    /// A call with its input tokens and those read from the cache.
    Call(u64, u64),
    Reset,
}

/// The tracker after all of the events.
pub open spec fn after_events(events: Seq<TrackerEvent>) -> TrackerView
    decreases events.len(),
{
    if events.len() == 0 {
        untouched()
    } else {
        let before = after_events(events.drop_last());
        match events.last() {
            TrackerEvent::Call(input_tokens, cache_read) => recorded(
                before,
                input_tokens,
                cache_read,
            ),
            TrackerEvent::Reset => forgotten(before),
        }
    }
}

/// Over any history of a tracker, a call is compared with the call right before
/// it, and with nothing where it is the first one or the first after a reset. It
/// breaks the cache where it reads less and the drop is over 2000 tokens or over
/// 5%. A break ends the run of hits and is counted; any other call that is
/// compared makes the run longer by one.
pub proof fn law_call_is_compared_with_the_one_before(
    events: Seq<TrackerEvent>,
    input_tokens: u64,
    cache_read: u64,
)
    ensures
        ({
            let before = after_events(events);
            let after = after_events(events.push(TrackerEvent::Call(input_tokens, cache_read)));
            let broken = is_break(before.prev_cache_read, cache_read);
            if events.len() > 0 && events.last() is Call {
                let p = events.last()->Call_1;
                &&& broken <==> p > cache_read && (p - cache_read > 2000 || 100 * (p - cache_read)
                    > 5 * p)
                &&& broken ==> after.consecutive_hits == 0 && after.total_breaks
                    == before.total_breaks + 1
                &&& !broken ==> after.consecutive_hits == before.consecutive_hits + 1
                    && after.total_breaks == before.total_breaks
            } else {
                &&& !broken
                &&& after.consecutive_hits == 0
                &&& after.total_breaks == before.total_breaks
            }
        }),
{
    assert(events.push(TrackerEvent::Call(input_tokens, cache_read)).drop_last() =~= events);
}

/// The calls among events.
pub open spec fn calls_in(events: Seq<TrackerEvent>) -> Seq<TrackerEvent> {
    events.filter(|e: TrackerEvent| e is Call)
}

/// Over any history, every call is counted and no reset is; the tracker remembers
/// the input of the last call since the last reset.
pub proof fn law_calls_are_counted(events: Seq<TrackerEvent>, input_tokens: u64, cache_read: u64)
    ensures
        after_events(events).total_calls == calls_in(events).len(),
        after_events(events.push(TrackerEvent::Call(input_tokens, cache_read))).prev_input_tokens
            == Some(input_tokens),
        after_events(events.push(TrackerEvent::Call(input_tokens, cache_read))).prev_cache_read
            == Some(cache_read),
        after_events(events.push(TrackerEvent::Reset)).prev_input_tokens is None,
        after_events(events.push(TrackerEvent::Reset)).total_breaks == after_events(
            events,
        ).total_breaks,
        after_events(Seq::<TrackerEvent>::empty()).total_breaks == 0,
    decreases events.len(),
{
    reveal(Seq::filter);
    let call = TrackerEvent::Call(input_tokens, cache_read);
    assert(events.push(call).drop_last() =~= events);
    assert(events.push(TrackerEvent::Reset).drop_last() =~= events);
    if events.len() > 0 {
        law_calls_are_counted(events.drop_last(), input_tokens, cache_read);
    }
}

/// Of the calls after the first, those that did not break the cache are its hits.
pub proof fn law_what_is_no_break_is_a_hit(state: TrackerView)
    requires
        counts_fit(state),
    ensures
        state.total_calls > 1 ==> rate_of(state).comparisons == state.total_calls - 1 && rate_of(
            state,
        ).hits + state.total_breaks == rate_of(state).comparisons,
        state.total_calls <= 1 ==> rate_of(state).comparisons == 0 && rate_of(state).hits == 0,
{
}

} // verus!
