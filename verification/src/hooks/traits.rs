//! What a modifying hook decides.

use crate::text;
use vstd::prelude::*;

verus! {

/// Result of a modifying hook — continue with (possibly modified) data, or cancel.
#[derive(Debug, Clone)]
pub enum HookResult<T> {
    Continue(T),
    Cancel(String),
    /// Hard deny — cannot be overridden by any privilege escalation or bypass mode.
    /// Used for security-critical blocks (e.g., prompt injection detected in tool output,
    /// team budget exceeded).
    HardDeny(String),
}

/// The hook stops what it was asked about, one way or the other.
pub open spec fn cancels<T>(h: HookResult<T>) -> bool {
    h is Cancel || h is HardDeny
}

/// The hook stops it for good.
pub open spec fn denies_hard<T>(h: HookResult<T>) -> bool {
    h is HardDeny
}

/// The hook stops it in a way that can be overridden.
pub open spec fn cancels_softly<T>(h: HookResult<T>) -> bool {
    h is Cancel
}

/// Why the hook stops it.
pub open spec fn reason_of<T>(h: HookResult<T>) -> Option<Seq<char>> {
    match h {
        HookResult::Cancel(why) => Some(why@),
        HookResult::HardDeny(why) => Some(why@),
        HookResult::Continue(_) => None,
    }
}

impl<T> HookResult<T> {
    /// Returns `true` for both `Cancel` and `HardDeny` (any kind of cancellation).
    pub fn is_cancel(&self) -> (r: bool)
        ensures
            r == cancels(*self),
    {
        match self {
            HookResult::Cancel(_) => true,
            HookResult::HardDeny(_) => true,
            HookResult::Continue(_) => false,
        }
    }

    /// Returns `true` only for the non-overridable `HardDeny` variant.
    pub fn is_hard_deny(&self) -> (r: bool)
        ensures
            r == denies_hard(*self),
    {
        match self {
            HookResult::HardDeny(_) => true,
            _ => false,
        }
    }

    /// Returns `true` only for a soft `Cancel` (not `HardDeny`).
    pub fn is_soft_cancel(&self) -> (r: bool)
        ensures
            r == cancels_softly(*self),
    {
        match self {
            HookResult::Cancel(_) => true,
            _ => false,
        }
    }

    /// Returns the reason string for `Cancel` or `HardDeny`, or `None` for `Continue`.
    pub fn reason(&self) -> (r: Option<&str>)
        ensures
            text::view_opt(r) == reason_of(*self),
    {
        match self {
            HookResult::Cancel(why) => Some(why.as_str()),
            HookResult::HardDeny(why) => Some(why.as_str()),
            HookResult::Continue(_) => None,
        }
    }
}

/// A cancellation is either soft or hard, never both, and it alone has a reason.
pub proof fn law_cancellation_is_soft_or_hard<T>(h: HookResult<T>)
    ensures
        cancels(h) <==> cancels_softly(h) || denies_hard(h),
        !(cancels_softly(h) && denies_hard(h)),
        cancels(h) <==> reason_of(h) is Some,
{
}

/// The priority of a hook that does not ask for another.
pub const DEFAULT_PRIORITY: i32 = 0;

/// An answer that lets things go on stops nothing and has no reason; both ways of
/// stopping carry their reason, and only one of them is final.
pub proof fn law_answers_mean_what_they_say<T>(data: T, why: String)
    ensures
        !cancels(HookResult::Continue(data)),
        reason_of(HookResult::Continue(data)) is None,
        cancels(HookResult::<T>::Cancel(why)) && cancels_softly(HookResult::<T>::Cancel(why))
            && !denies_hard(HookResult::<T>::Cancel(why)),
        reason_of(HookResult::<T>::Cancel(why)) == Some(why@),
        cancels(HookResult::<T>::HardDeny(why)) && denies_hard(HookResult::<T>::HardDeny(why))
            && !cancels_softly(HookResult::<T>::HardDeny(why)),
        reason_of(HookResult::<T>::HardDeny(why)) == Some(why@),
        DEFAULT_PRIORITY == 0,
{
}

} // verus!
