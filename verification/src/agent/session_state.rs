//! Session state metadata tracking.
//!
//! Tracks the current state of an agent session with rich metadata
//! for webhook/UI integration.

use crate::clock;
use crate::text;
use vstd::prelude::*;

verus! {

/// Current state of an agent session.
#[derive(Debug, Clone, Copy, PartialEq, Eq, Structural)]
pub enum SessionStatus {
    /// Session is idle, waiting for user input.
    Idle,
    /// Agent is actively processing (LLM call or tool execution).
    Running,
    /// Agent needs user action (permission approval, input needed).
    RequiresAction,
    /// Session has ended.
    Completed,
    /// Session encountered an unrecoverable error.
    Error,
}

/// Details about what action the agent requires from the user.
#[derive(Debug)]
pub struct RequiresActionDetails {
    pub tool_name: Option<String>,
    pub action_description: String,
}

fn cloned_opt(s: &Option<String>) -> (r: Option<String>)
    ensures
        r == *s,
{
    match s {
        Some(t) => Some(t.clone()),
        None => None,
    }
}

impl Clone for RequiresActionDetails {
    fn clone(&self) -> (r: Self)
        ensures
            r == *self,
    {
        RequiresActionDetails {
            tool_name: cloned_opt(&self.tool_name),
            action_description: self.action_description.clone(),
        }
    }
}

/// Rich session metadata for external consumers (webhooks, UI).
#[derive(Debug, Clone)]
pub struct SessionMetadata {
    pub status: SessionStatus,
    pub model: Option<String>,
    pub provider: Option<String>,
    pub current_tool: Option<String>,
    pub turn_count: u32,
    pub total_input_tokens: u64,
    pub total_output_tokens: u64,
    pub requires_action: Option<RequiresActionDetails>,
    pub elapsed_secs: u64,
    pub last_error: Option<String>,
}

/// Session state tracker.
pub struct SessionStateTracker {
    pub status: SessionStatus,
    pub model: Option<String>,
    pub provider: Option<String>,
    pub current_tool: Option<String>,
    pub turn_count: u32,
    pub total_input_tokens: u64,
    pub total_output_tokens: u64,
    pub requires_action: Option<RequiresActionDetails>,
    pub started_at: std::time::Instant,
    pub last_error: Option<String>,
}

impl SessionStateTracker {
    /// The tracker of a session that has just started.
    pub open spec fn is_fresh(&self) -> bool {
        &&& self.status == SessionStatus::Idle
        &&& self.model is None
        &&& self.provider is None
        &&& self.current_tool is None
        &&& self.turn_count == 0
        &&& self.total_input_tokens == 0
        &&& self.total_output_tokens == 0
        &&& self.requires_action is None
        &&& self.last_error is None
    }

    pub fn new() -> (r: Self)
        ensures
            r.is_fresh(),
            clock::is_reading(r.started_at),
    {
        SessionStateTracker {
            status: SessionStatus::Idle,
            model: None,
            provider: None,
            current_tool: None,
            turn_count: 0,
            total_input_tokens: 0,
            total_output_tokens: 0,
            requires_action: None,
            started_at: std::time::Instant::now(),
            last_error: None,
        }
    }

    /// Transition to running state (LLM call started).
    pub fn set_running(&mut self, provider: &str, model: &str)
        ensures
            text::view_opt_string(final(self).provider) == Some(provider@),
            text::view_opt_string(final(self).model) == Some(model@),
            *final(self) == (SessionStateTracker {
                status: SessionStatus::Running,
                provider: final(self).provider,
                model: final(self).model,
                current_tool: None,
                requires_action: None,
                ..*old(self)
            }),
    {
        self.status = SessionStatus::Running;
        self.provider = Some(provider.to_string());
        self.model = Some(model.to_string());
        self.current_tool = None;
        self.requires_action = None;
    }

    /// Record that a tool is currently executing.
    pub fn set_tool_running(&mut self, tool_name: &str)
        ensures
            text::view_opt_string(final(self).current_tool) == Some(tool_name@),
            *final(self) == (SessionStateTracker {
                current_tool: final(self).current_tool,
                ..*old(self)
            }),
    {
        self.current_tool = Some(tool_name.to_string());
    }

    /// Transition to idle state (turn completed).
    pub fn set_idle(&mut self)
        requires
            old(self).turn_count < u32::MAX,
        ensures
            *final(self) == (SessionStateTracker {
                status: SessionStatus::Idle,
                current_tool: None,
                turn_count: (old(self).turn_count + 1) as u32,
                requires_action: None,
                ..*old(self)
            }),
    {
        self.status = SessionStatus::Idle;
        self.current_tool = None;
        self.turn_count = self.turn_count + 1;
        self.requires_action = None;
    }

    /// Transition to requires_action state (needs user approval).
    pub fn set_requires_action(&mut self, details: RequiresActionDetails)
        ensures
            *final(self) == (SessionStateTracker {
                status: SessionStatus::RequiresAction,
                requires_action: Some(details),
                ..*old(self)
            }),
    {
        self.status = SessionStatus::RequiresAction;
        self.requires_action = Some(details);
    }

    /// Record token usage from an LLM call.
    pub fn add_tokens(&mut self, input: u64, output: u64)
        requires
            old(self).total_input_tokens + input <= u64::MAX,
            old(self).total_output_tokens + output <= u64::MAX,
        ensures
            *final(self) == (SessionStateTracker {
                total_input_tokens: (old(self).total_input_tokens + input) as u64,
                total_output_tokens: (old(self).total_output_tokens + output) as u64,
                ..*old(self)
            }),
    {
        self.total_input_tokens = self.total_input_tokens + input;
        self.total_output_tokens = self.total_output_tokens + output;
    }

    /// Record an error.
    pub fn set_error(&mut self, error: &str)
        ensures
            text::view_opt_string(final(self).last_error) == Some(error@),
            *final(self) == (SessionStateTracker {
                status: SessionStatus::Error,
                last_error: final(self).last_error,
                ..*old(self)
            }),
    {
        self.status = SessionStatus::Error;
        self.last_error = Some(error.to_string());
    }

    /// Set completed state.
    pub fn set_completed(&mut self)
        ensures
            *final(self) == (SessionStateTracker {
                status: SessionStatus::Completed,
                ..*old(self)
            }),
    {
        self.status = SessionStatus::Completed;
    }

    /// The metadata of the session after so many seconds.
    pub open spec fn described(&self, elapsed_secs: u64) -> SessionMetadata {
        SessionMetadata {
            status: self.status,
            model: self.model,
            provider: self.provider,
            current_tool: self.current_tool,
            turn_count: self.turn_count,
            total_input_tokens: self.total_input_tokens,
            total_output_tokens: self.total_output_tokens,
            requires_action: self.requires_action,
            elapsed_secs,
            last_error: self.last_error,
        }
    }

    /// Session metadata snapshot after so many seconds.
    pub fn metadata_at(&self, elapsed_secs: u64) -> (r: SessionMetadata)
        ensures
            r == self.described(elapsed_secs),
    {
        SessionMetadata {
            status: self.status,
            model: cloned_opt(&self.model),
            provider: cloned_opt(&self.provider),
            current_tool: cloned_opt(&self.current_tool),
            turn_count: self.turn_count,
            total_input_tokens: self.total_input_tokens,
            total_output_tokens: self.total_output_tokens,
            requires_action: match &self.requires_action {
                Some(details) => Some(details.clone()),
                None => None,
            },
            elapsed_secs,
            last_error: cloned_opt(&self.last_error),
        }
    }

    /// Get current session metadata snapshot.
    pub fn metadata(&self) -> (r: SessionMetadata)
        ensures
            r == self.described(r.elapsed_secs),
            exists|nanos: u128| #[trigger]
                clock::have_passed(self.started_at, nanos) && r.elapsed_secs == nanos
                    / 1_000_000_000,
    {
        let nanos: u128 = clock::nanos_since(self.started_at);
        let elapsed: u128 = nanos / 1_000_000_000;
        self.metadata_at(elapsed as u64)
    }
}

impl Default for SessionStateTracker {
    fn default() -> (r: Self)
        ensures
            r.is_fresh(),
            clock::is_reading(r.started_at),
    {
        Self::new()
    }
}

/// A session that has just started is idle, has run no turn, has used no tokens
/// and has nothing else to tell.
pub proof fn law_fresh_session_has_done_nothing(tracker: SessionStateTracker, secs: u64)
    requires
        tracker.is_fresh(),
    ensures
        ({
            let shown = tracker.described(secs);
            &&& shown.status is Idle
            &&& shown.turn_count == 0
            &&& shown.total_input_tokens == 0
            &&& shown.total_output_tokens == 0
            &&& shown.model is None
            &&& shown.provider is None
            &&& shown.current_tool is None
            &&& shown.requires_action is None
            &&& shown.last_error is None
            &&& shown.elapsed_secs == secs
        }),
{
}

/// The metadata tell each part of the state under its own name.
pub proof fn law_metadata_tell_the_state(tracker: SessionStateTracker, secs: u64)
    ensures
        ({
            let shown = tracker.described(secs);
            &&& shown.status == tracker.status
            &&& shown.turn_count == tracker.turn_count
            &&& shown.total_input_tokens == tracker.total_input_tokens
            &&& shown.total_output_tokens == tracker.total_output_tokens
            &&& shown.model == tracker.model
            &&& shown.provider == tracker.provider
            &&& shown.current_tool == tracker.current_tool
            &&& shown.requires_action == tracker.requires_action
            &&& shown.last_error == tracker.last_error
            &&& shown.elapsed_secs == secs
        }),
{
}

} // verus!
