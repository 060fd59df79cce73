//! Tool executor with per-tool retry policies and timeouts.
//!
//! Decides over each attempt to run a tool: what its outcome means, whether it
//! is tried again, and after which pause. Side-effecting tools (shell,
//! file_write, file_edit) default to zero retries. Read-only and network tools
//! can opt into retry for transient failures.

use crate::text;
use crate::text_map::TextMap;
use crate::tools::traits;
use crate::tools::traits::{ToolResult, ToolResultView};
use vstd::prelude::*;

verus! {

// ── Retry Policy ────────────────────────────────────────────────────

/// Per-tool retry configuration.
#[derive(Debug, Clone, Copy)]
pub struct ToolRetryPolicy {
    /// Maximum retry attempts (0 = no retry). Default: 0.
    pub max_retries: u32,
    /// Base backoff in milliseconds. Default: 500.
    pub backoff_base_ms: u64,
    /// Maximum backoff cap in milliseconds. Default: 5000.
    pub backoff_max_ms: u64,
}

/// The policy of a tool that has none of its own.
pub open spec fn default_policy() -> ToolRetryPolicy {
    ToolRetryPolicy { max_retries: 0, backoff_base_ms: 500, backoff_max_ms: 5_000 }
}

impl Default for ToolRetryPolicy {
    fn default() -> (r: Self)
        ensures
            r == default_policy(),
    {
        ToolRetryPolicy { max_retries: 0, backoff_base_ms: 500, backoff_max_ms: 5_000 }
    }
}

// ── Retry Classification ────────────────────────────────────────────

/// What is said, in lower case, where trying again does not help.
pub open spec fn is_final(lowered: Seq<char>) -> bool {
    ||| text::contains(lowered, "not allowed"@)
    ||| text::contains(lowered, "security policy"@)
    ||| text::contains(lowered, "read-only"@)
    ||| text::contains(lowered, "rate limit exceeded"@)
    ||| text::contains(lowered, "action blocked"@)
    ||| text::contains(lowered, "autonomy"@)
    ||| text::contains(lowered, "must not be empty"@)
    ||| text::contains(lowered, "missing"@)
    ||| text::contains(lowered, "parameter"@)
    ||| text::contains(lowered, "permission denied"@)
    ||| text::contains(lowered, "workspace"@)
    ||| text::contains(lowered, "forbidden"@)
    ||| text::contains(lowered, "symlink"@)
    ||| text::contains(lowered, "runtime config"@)
}

/// The text that tells why a tool failed: its error, or its output where it
/// gives none.
pub open spec fn failure_text(result: ToolResultView) -> Seq<char> {
    match result.error {
        Some(e) => e,
        None => result.output,
    }
}

/// A failed result that is worth another attempt.
pub open spec fn retryable(result: ToolResultView) -> bool {
    !result.success && !is_final(text::unicode_lower(failure_text(result)))
}

/// Whether what is said, in lower case, means that trying again does not help.
pub fn says_final(lowered: &str) -> (r: bool)
    ensures
        r == is_final(lowered@),
{
    text::contains_text(lowered, "not allowed") || text::contains_text(lowered, "security policy")
        || text::contains_text(lowered, "read-only") || text::contains_text(
        lowered,
        "rate limit exceeded",
    ) || text::contains_text(lowered, "action blocked") || text::contains_text(lowered, "autonomy")
        || text::contains_text(lowered, "must not be empty") || text::contains_text(
        lowered,
        "missing",
    ) || text::contains_text(lowered, "parameter") || text::contains_text(
        lowered,
        "permission denied",
    ) || text::contains_text(lowered, "workspace") || text::contains_text(lowered, "forbidden")
        || text::contains_text(lowered, "symlink") || text::contains_text(lowered, "runtime config")
}

/// Determine if a failed tool result is retryable.
///
/// Non-retryable patterns: security violations, parameter errors, permission denials.
/// Everything else (timeouts, transient IO, network errors) is retryable.
pub fn is_retryable(result: &ToolResult) -> (r: bool)
    ensures
        r == retryable(result@),
        text::all_ascii(failure_text(result@)) ==> r == (!result.success && !is_final(
            text::ascii_lowered(failure_text(result@)),
        )),
{
    if result.success {
        return false;
    }
    let why = match &result.error {
        Some(e) => e.as_str(),
        None => result.output.as_str(),
    };
    let lowered = why.to_lowercase();
    !says_final(lowered.as_str())
}

// ── Executor ────────────────────────────────────────────────────────

/// How one attempt to run a tool ended.
pub enum Attempt {
    Finished(ToolResult),
    /// The tool gave an error instead of a result.
    Failed(String),
    TimedOut,
}

/// What follows an attempt.
#[derive(Debug, Clone, Copy, PartialEq, Eq, Structural)]
pub enum AfterAttempt {
    /// The result of the attempt is the result of the tool.
    Return,
    /// The tool is tried again after a pause.
    Retry { backoff_ms: u64 },
}

/// Tool executor: retry policies and the timeout of an attempt.
pub struct ToolExecutor {
    default_timeout_secs: u64,
    policies: TextMap<ToolRetryPolicy>,
}

/// `base` doubled `n` times.
pub open spec fn doubled(base: nat, n: nat) -> nat
    decreases n,
{
    if n == 0 {
        base
    } else {
        2 * doubled(base, (n - 1) as nat)
    }
}

/// The pause after the attempt with the number `attempt`, counted from zero:
/// twice as long after each one, up to the cap.
pub open spec fn backoff(policy: ToolRetryPolicy, attempt: u32) -> u64 {
    let pause = doubled(policy.backoff_base_ms as nat, attempt as nat);
    if pause <= policy.backoff_max_ms {
        pause as u64
    } else {
        policy.backoff_max_ms
    }
}

/// What follows the attempt with the number `attempt`, counted from zero, where
/// `worth_it` says whether its result is worth another one.
pub open spec fn next_step(policy: ToolRetryPolicy, attempt: u32, worth_it: bool) -> AfterAttempt {
    if worth_it && attempt < policy.max_retries {
        AfterAttempt::Retry { backoff_ms: backoff(policy, attempt) }
    } else {
        AfterAttempt::Return
    }
}

/// What follows the attempt with the number `attempt`, counted from zero.
pub open spec fn after_attempt(
    policy: ToolRetryPolicy,
    attempt: u32,
    result: ToolResultView,
) -> AfterAttempt {
    next_step(policy, attempt, retryable(result))
}

/// The result that an attempt stands for.
pub open spec fn attempt_result(attempt: Attempt, timeout_secs: u64) -> ToolResultView {
    match attempt {
        Attempt::Finished(result) => result@,
        Attempt::Failed(e) => traits::failure("Tool execution error: "@ + e@),
        Attempt::TimedOut => traits::failure(
            "Tool timed out after "@ + text::decimal(timeout_secs as nat) + "s"@,
        ),
    }
}

/// The policies that an executor starts with.
pub open spec fn known_policies() -> Map<Seq<char>, ToolRetryPolicy> {
    let once = ToolRetryPolicy { max_retries: 1, ..default_policy() };
    let twice = ToolRetryPolicy { max_retries: 2, backoff_base_ms: 1_000, ..default_policy() };
    Map::<Seq<char>, ToolRetryPolicy>::empty().insert("file_read"@, once).insert(
        "content_search"@,
        once,
    ).insert("glob_search"@, once).insert("web_fetch"@, twice).insert("http_request"@, twice)
}

/// The pause after an attempt.
pub fn backoff_ms(policy: &ToolRetryPolicy, attempt: u32) -> (r: u64)
    ensures
        r == backoff(*policy, attempt),
{
    let max: u64 = policy.backoff_max_ms;
    let mut pause: u64 = if policy.backoff_base_ms <= max {
        policy.backoff_base_ms
    } else {
        max
    };
    let ghost base = policy.backoff_base_ms as nat;
    for i in 0..attempt
        invariant
            pause <= max,
            doubled(base, i as nat) <= max ==> pause == doubled(base, i as nat),
            doubled(base, i as nat) > max ==> pause == max,
    {
        pause = if pause <= max - pause {
            pause + pause
        } else {
            max
        };
    }
    pause
}

/// What follows an attempt, given whether its result is worth another one.
pub fn decide_next(policy: &ToolRetryPolicy, attempt: u32, worth_it: bool) -> (r: AfterAttempt)
    ensures
        r == next_step(*policy, attempt, worth_it),
{
    if worth_it && attempt < policy.max_retries {
        AfterAttempt::Retry { backoff_ms: backoff_ms(policy, attempt) }
    } else {
        AfterAttempt::Return
    }
}

impl ToolExecutor {
    /// The policies of tools that have one of their own.
    pub closed spec fn policies(&self) -> Map<Seq<char>, ToolRetryPolicy> {
        self.policies@
    }

    /// The time that an attempt may take.
    pub closed spec fn timeout(&self) -> u64 {
        self.default_timeout_secs
    }

    /// The policy of a tool.
    pub open spec fn policy(&self, tool: Seq<char>) -> ToolRetryPolicy {
        if self.policies().dom().contains(tool) {
            self.policies()[tool]
        } else {
            default_policy()
        }
    }

    /// Create a new executor with default policies for known tools.
    pub fn new() -> (r: Self)
        ensures
            r.policies() == known_policies(),
            r.timeout() == 60,
    {
        let once = ToolRetryPolicy { max_retries: 1, backoff_base_ms: 500, backoff_max_ms: 5_000 };
        let twice = ToolRetryPolicy {
            max_retries: 2,
            backoff_base_ms: 1_000,
            backoff_max_ms: 5_000,
        };
        let mut policies: TextMap<ToolRetryPolicy> = TextMap::new();
        policies.insert("file_read".to_string(), once);
        policies.insert("content_search".to_string(), once);
        policies.insert("glob_search".to_string(), once);
        policies.insert("web_fetch".to_string(), twice);
        policies.insert("http_request".to_string(), twice);
        ToolExecutor { default_timeout_secs: 60, policies }
    }

    /// The time that an attempt may take, in seconds.
    pub fn default_timeout_secs(&self) -> (r: u64)
        ensures
            r == self.timeout(),
    {
        self.default_timeout_secs
    }

    /// The policy of a tool; the default one where it has none of its own.
    pub fn policy_for(&self, tool: &str) -> (r: ToolRetryPolicy)
        ensures
            r == self.policy(tool@),
    {
        match self.policies.get(tool) {
            Some(policy) => *policy,
            None => ToolRetryPolicy::default(),
        }
    }

    /// Decides over an attempt to run `tool`, counted from zero: what its
    /// result is, and what follows.
    pub fn settle(&self, tool: &str, attempt: u32, outcome: Attempt) -> (r: (
        ToolResult,
        AfterAttempt,
    ))
        ensures
            r.0@ == attempt_result(outcome, self.timeout()),
            r.1 == after_attempt(self.policy(tool@), attempt, r.0@),
            text::all_ascii(failure_text(r.0@)) ==> r.1 == next_step(
                self.policy(tool@),
                attempt,
                !r.0.success && !is_final(text::ascii_lowered(failure_text(r.0@))),
            ),
    {
        let policy = self.policy_for(tool);
        let result = match outcome {
            Attempt::Finished(result) => result,
            Attempt::Failed(e) => ToolResult::failed(
                text::cat2("Tool execution error: ", e.as_str()),
            ),
            Attempt::TimedOut => {
                let seconds = text::decimal_of(self.default_timeout_secs);
                ToolResult::failed(text::cat3("Tool timed out after ", seconds.as_str(), "s"))
            },
        };
        let worth_it = is_retryable(&result);
        (result, decide_next(&policy, attempt, worth_it))
    }
}

impl Default for ToolExecutor {
    fn default() -> (r: Self)
        ensures
            r.policies() == known_policies(),
            r.timeout() == 60,
    {
        Self::new()
    }
}

// ── Laws ────────────────────────────────────────────────────────────

/// A tool is tried at most once more than its retries say, and a tool without a
/// policy of its own is tried once.
pub proof fn law_attempts_are_bounded(
    policy: ToolRetryPolicy,
    attempt: u32,
    result: ToolResultView,
)
    ensures
        attempt >= policy.max_retries ==> after_attempt(policy, attempt, result)
            == AfterAttempt::Return,
        after_attempt(default_policy(), attempt, result) == AfterAttempt::Return,
{
}

/// A success is never repeated, nor is a failure that is final.
pub proof fn law_final_results_are_returned(
    policy: ToolRetryPolicy,
    attempt: u32,
    result: ToolResultView,
)
    requires
        result.success || is_final(text::unicode_lower(failure_text(result))),
    ensures
        after_attempt(policy, attempt, result) == AfterAttempt::Return,
{
}

/// Pauses never shrink from one attempt to the next, and never exceed the cap.
pub proof fn law_backoff_grows_to_the_cap(policy: ToolRetryPolicy, attempt: u32)
    requires
        attempt < u32::MAX,
    ensures
        backoff(policy, attempt) <= backoff(policy, (attempt + 1) as u32),
        backoff(policy, attempt) <= policy.backoff_max_ms,
{
}

/// Each of the marks of a violation, a wrong parameter or a denial makes a
/// failure final, whatever stands around it; a failure without any of them is
/// not.
pub proof fn law_marks_of_final_failures(lowered: Seq<char>, a: Seq<char>, b: Seq<char>)
    ensures
        is_final(a + "not allowed"@ + b),
        is_final(a + "security policy"@ + b),
        is_final(a + "read-only"@ + b),
        is_final(a + "rate limit exceeded"@ + b),
        is_final(a + "action blocked"@ + b),
        is_final(a + "autonomy"@ + b),
        is_final(a + "must not be empty"@ + b),
        is_final(a + "missing"@ + b),
        is_final(a + "parameter"@ + b),
        is_final(a + "permission denied"@ + b),
        is_final(a + "workspace"@ + b),
        is_final(a + "forbidden"@ + b),
        is_final(a + "symlink"@ + b),
        is_final(a + "runtime config"@ + b),
        !text::contains(lowered, "not allowed"@)
            && !text::contains(lowered, "security policy"@)
            && !text::contains(lowered, "read-only"@)
            && !text::contains(lowered, "rate limit exceeded"@)
            && !text::contains(lowered, "action blocked"@)
            && !text::contains(lowered, "autonomy"@)
            && !text::contains(lowered, "must not be empty"@)
            && !text::contains(lowered, "missing"@)
            && !text::contains(lowered, "parameter"@)
            && !text::contains(lowered, "permission denied"@)
            && !text::contains(lowered, "workspace"@)
            && !text::contains(lowered, "forbidden"@)
            && !text::contains(lowered, "symlink"@)
            && !text::contains(lowered, "runtime config"@) ==> !is_final(lowered),
{
    text::law_found_texts_stand_within(a + "not allowed"@ + b, "not allowed"@);
    text::law_found_texts_stand_within(a + "security policy"@ + b, "security policy"@);
    text::law_found_texts_stand_within(a + "read-only"@ + b, "read-only"@);
    text::law_found_texts_stand_within(a + "rate limit exceeded"@ + b, "rate limit exceeded"@);
    text::law_found_texts_stand_within(a + "action blocked"@ + b, "action blocked"@);
    text::law_found_texts_stand_within(a + "autonomy"@ + b, "autonomy"@);
    text::law_found_texts_stand_within(a + "must not be empty"@ + b, "must not be empty"@);
    text::law_found_texts_stand_within(a + "missing"@ + b, "missing"@);
    text::law_found_texts_stand_within(a + "parameter"@ + b, "parameter"@);
    text::law_found_texts_stand_within(a + "permission denied"@ + b, "permission denied"@);
    text::law_found_texts_stand_within(a + "workspace"@ + b, "workspace"@);
    text::law_found_texts_stand_within(a + "forbidden"@ + b, "forbidden"@);
    text::law_found_texts_stand_within(a + "symlink"@ + b, "symlink"@);
    text::law_found_texts_stand_within(a + "runtime config"@ + b, "runtime config"@);
}

/// A failure that is not final is tried again while retries are left; what is
/// looked at is the error, or the output where there is none.
pub proof fn law_transient_failures_are_retried(
    policy: ToolRetryPolicy,
    attempt: u32,
    result: ToolResultView,
)
    requires
        !result.success,
        attempt < policy.max_retries,
        result.error matches Some(e) ==> !is_final(text::unicode_lower(e)),
        result.error is None ==> !is_final(text::unicode_lower(result.output)),
    ensures
        after_attempt(policy, attempt, result) matches AfterAttempt::Retry { backoff_ms }
            && backoff_ms == backoff(policy, attempt),
{
}

/// The first pause is the base, and each further one is twice the one before;
/// none is longer than the cap.
pub proof fn law_pauses_double_up_to_the_cap(policy: ToolRetryPolicy, attempt: u32)
    requires
        attempt < u32::MAX,
    ensures
        policy.backoff_base_ms <= policy.backoff_max_ms ==> backoff(policy, 0)
            == policy.backoff_base_ms,
        policy.backoff_base_ms > policy.backoff_max_ms ==> backoff(policy, 0)
            == policy.backoff_max_ms,
        2 * backoff(policy, attempt) <= policy.backoff_max_ms ==> backoff(
            policy,
            (attempt + 1) as u32,
        ) == 2 * backoff(policy, attempt),
        2 * backoff(policy, attempt) > policy.backoff_max_ms ==> backoff(
            policy,
            (attempt + 1) as u32,
        ) == policy.backoff_max_ms,
{
    let base = policy.backoff_base_ms as nat;
    assert(doubled(base, 0) == base);
    assert(doubled(base, (attempt + 1) as nat) == 2 * doubled(base, attempt as nat));
}

/// Reading files and searching are tried twice, fetching from the network three
/// times, with a second as the first pause. No other tool is tried again, so none
/// that changes anything.
pub proof fn law_only_reading_tools_are_retried(tool: Seq<char>)
    ensures
        known_policies().dom().contains(tool) <==> tool == "file_read"@ || tool
            == "content_search"@ || tool == "glob_search"@ || tool == "web_fetch"@ || tool
            == "http_request"@,
        tool == "file_read"@ || tool == "content_search"@ || tool == "glob_search"@
            ==> known_policies()[tool].max_retries == 1 && known_policies()[tool].backoff_base_ms
            == 500 && known_policies()[tool].backoff_max_ms == 5_000,
        tool == "web_fetch"@ || tool == "http_request"@ ==> known_policies()[tool].max_retries == 2
            && known_policies()[tool].backoff_base_ms == 1_000
            && known_policies()[tool].backoff_max_ms == 5_000,
        default_policy().max_retries == 0,
        default_policy().backoff_base_ms == 500,
        default_policy().backoff_max_ms == 5_000,
{
    reveal_strlit("file_read");
    reveal_strlit("content_search");
    reveal_strlit("glob_search");
    reveal_strlit("web_fetch");
    reveal_strlit("http_request");
    assert("file_read"@.len() == 9 && "file_read"@[0] == 'f');
    assert("web_fetch"@.len() == 9 && "web_fetch"@[0] == 'w');
    assert("content_search"@.len() == 14);
    assert("glob_search"@.len() == 11);
    assert("http_request"@.len() == 12);
}

/// What a tool gave back is its result. A tool that gave an error, or took too
/// long, failed, and the result says so with the error, or with the time.
pub proof fn law_attempts_are_told_as_they_ended(attempt: Attempt, timeout_secs: u64)
    ensures
        match attempt {
            Attempt::Finished(result) => attempt_result(attempt, timeout_secs) == result@,
            Attempt::Failed(e) => !attempt_result(attempt, timeout_secs).success
                && attempt_result(attempt, timeout_secs).error is Some && text::has_suffix(
                attempt_result(attempt, timeout_secs).error->0,
                e@,
            ),
            Attempt::TimedOut => !attempt_result(attempt, timeout_secs).success
                && attempt_result(attempt, timeout_secs).error == Some(
                "Tool timed out after "@ + text::decimal(timeout_secs as nat) + "s"@,
            ),
        },
{
    if let Attempt::Failed(e) = attempt {
        text::lemma_suffix("Tool execution error: "@, e@);
    }
}

} // verus!
