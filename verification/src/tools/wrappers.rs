//! Generic tool wrappers for crosscutting concerns.
//!
//! Each wrapper holds an inner tool and decides one crosscutting concern around
//! a call of it. Wrappers compose.
//!
//! # Composition order (outermost first)
//!
//! ```text
//! LoggedTool
//!   └─ RateLimitedTool
//!        └─ PathGuardedTool
//!             └─ <concrete tool>
//! ```

use crate::json::{Json, JsonView};
use crate::text;
use crate::tools::traits;
use crate::tools::traits::{ToolResult, ToolResultView};
use vstd::prelude::*;

verus! {

/// Whether a call goes on to the inner tool.
pub enum Gate {
    /// The inner tool is called.
    Open,
    /// The call ends here, with this result.
    Closed(ToolResult),
}

/// Whether a call goes on to the inner tool.
#[verifier::ext_equal]
pub enum GateView {
    Open,
    Closed(ToolResultView),
}

impl View for Gate {
    type V = GateView;

    open spec fn view(&self) -> GateView {
        match self {
            Gate::Open => GateView::Open,
            Gate::Closed(t) => GateView::Closed(t@),
        }
    }
}

// ---------------------------------------------------------------------------
// RateLimitedTool
// ---------------------------------------------------------------------------

/// Wraps a tool and enforces the rate limit of a security policy.
///
/// The inner tool receives the call only when the rate limit allows it.
pub struct RateLimitedTool<T, S> {
    inner: T,
    security: S,
}

/// Why a call is refused where the limit was reached before it.
pub const LIMIT_REACHED: &'static str = "Rate limit exceeded: too many actions in the last hour";

/// Why a call is refused where the action cannot be recorded.
pub const BUDGET_EXHAUSTED: &'static str = "Rate limit exceeded: action budget exhausted";

/// What becomes of a call before its action is recorded; `inner` is what the
/// guards inside say of it.
pub open spec fn first_gate(is_rate_limited: bool, inner: GateView) -> GateView {
    if is_rate_limited {
        GateView::Closed(traits::failure(LIMIT_REACHED@))
    } else {
        inner
    }
}

/// What becomes of a call once the policy was asked to record its action.
pub open spec fn second_gate(recorded: bool) -> GateView {
    if recorded {
        GateView::Open
    } else {
        GateView::Closed(traits::failure(BUDGET_EXHAUSTED@))
    }
}

/// The policy is asked to record the action: it uses up a slot of the limit.
pub open spec fn is_charged(is_rate_limited: bool, inner: GateView) -> bool {
    first_gate(is_rate_limited, inner) is Open
}

/// A call that a guard inside blocks is refused and uses up no slot of the rate
/// limit; a call that nothing blocks uses up one.
pub proof fn law_blocked_call_is_not_charged(is_rate_limited: bool, inner: GateView)
    ensures
        inner is Closed ==> !is_charged(is_rate_limited, inner) && first_gate(
            is_rate_limited,
            inner,
        ) is Closed,
        inner is Open && !is_rate_limited ==> is_charged(is_rate_limited, inner),
{
}

impl<T, S> RateLimitedTool<T, S> {
    /// The tool inside.
    pub closed spec fn held_tool(&self) -> T {
        self.inner
    }

    /// The policy that is asked.
    pub closed spec fn held_security(&self) -> S {
        self.security
    }

    pub fn new(inner: T, security: S) -> (r: Self)
        ensures
            r.held_tool() == inner,
            r.held_security() == security,
    {
        RateLimitedTool { inner, security }
    }

    /// The tool inside.
    pub fn inner(&self) -> (r: &T)
        ensures
            *r == self.held_tool(),
    {
        &self.inner
    }

    /// The policy that is asked.
    pub fn security(&self) -> (r: &S)
        ensures
            *r == self.held_security(),
    {
        &self.security
    }

    /// The first gate: whether the policy says that the limit is reached, and
    /// what the guards inside say of the call. Only where it is open is the
    /// action recorded: a call that is blocked inside uses up no slot.
    pub fn before_recording(&self, is_rate_limited: bool, inner: Gate) -> (r: Gate)
        ensures
            r@ == first_gate(is_rate_limited, inner@),
    {
        if is_rate_limited {
            Gate::Closed(ToolResult::failed(LIMIT_REACHED.to_string()))
        } else {
            inner
        }
    }

    /// The second gate: whether the policy has recorded the action.
    pub fn after_recording(&self, recorded: bool) -> (r: Gate)
        ensures
            r@ == second_gate(recorded),
    {
        if recorded {
            Gate::Open
        } else {
            Gate::Closed(ToolResult::failed(BUDGET_EXHAUSTED.to_string()))
        }
    }
}

// ---------------------------------------------------------------------------
// PathGuardedTool
// ---------------------------------------------------------------------------

/// Wraps a tool and blocks calls whose arguments contain a forbidden path.
///
/// Path extraction is argument-name-driven: the wrapper inspects the `"path"`,
/// `"command"`, `"pattern"`, `"query"` and `"file"` fields of the JSON argument
/// object. A tool whose path argument uses a different field name brings an
/// extractor of its own (see [`PathGuardedTool::with_extractor`]).
pub struct PathGuardedTool<T, S> {
    inner: T,
    security: S,
    /// Whether the path comes from an extractor of the tool's own.
    custom: bool,
}

/// What the security policy is asked about one field of a call.
pub enum PathQuestion {
    /// Which path in the command is forbidden.
    ForbiddenIn(String),
    /// Whether the path is allowed.
    Allowed(String),
}

/// What the security policy is asked about one field of a call.
#[verifier::ext_equal]
pub enum QuestionView {
    ForbiddenIn(Seq<char>),
    Allowed(Seq<char>),
}

impl View for PathQuestion {
    type V = QuestionView;

    open spec fn view(&self) -> QuestionView {
        match self {
            PathQuestion::ForbiddenIn(s) => QuestionView::ForbiddenIn(s@),
            PathQuestion::Allowed(s) => QuestionView::Allowed(s@),
        }
    }
}

/// What questions say.
pub open spec fn question_views(questions: Seq<PathQuestion>) -> Seq<QuestionView> {
    questions.map_values(|q: PathQuestion| q@)
}

/// The direct check of a path, where there is one.
pub open spec fn checked(path: Option<Seq<char>>) -> Seq<QuestionView> {
    match path {
        Some(s) => seq![QuestionView::Allowed(s)],
        None => Seq::<QuestionView>::empty(),
    }
}

/// The token-aware scan of a command, where there is one.
pub open spec fn scanned(command: Option<Seq<char>>) -> Seq<QuestionView> {
    match command {
        Some(s) => seq![QuestionView::ForbiddenIn(s)],
        None => Seq::<QuestionView>::empty(),
    }
}

/// What the policy is asked about arguments: one question for each of the fields
/// that commonly hold a path and hold a text.
pub open spec fn field_questions(args: JsonView) -> Seq<QuestionView> {
    checked(args.text_at("path"@)) + scanned(args.text_at("command"@)) + checked(
        args.text_at("pattern"@),
    ) + checked(args.text_at("query"@)) + checked(args.text_at("file"@))
}

fn text_of(args: &Json, field: &str) -> (r: Option<String>)
    ensures
        text::view_opt_string(r) == args@.text_at(field@),
{
    match args.text_at(field) {
        Some(s) => Some(s.to_string()),
        None => None,
    }
}

/// What a blocked call gives back.
pub open spec fn blocked(path: Seq<char>) -> GateView {
    GateView::Closed(traits::failure("Path blocked by security policy: "@ + path))
}

fn block(path: &str) -> (r: Gate)
    ensures
        r@ == blocked(path@),
{
    Gate::Closed(ToolResult::failed(text::cat2("Path blocked by security policy: ", path)))
}

impl<T, S> PathGuardedTool<T, S> {
    /// The tool inside.
    pub closed spec fn held_tool(&self) -> T {
        self.inner
    }

    /// The policy that is asked.
    pub closed spec fn held_security(&self) -> S {
        self.security
    }

    /// The path comes from an extractor of the tool's own.
    pub closed spec fn is_custom(&self) -> bool {
        self.custom
    }

    pub fn new(inner: T, security: S) -> (r: Self)
        ensures
            r.held_tool() == inner,
            r.held_security() == security,
            !r.is_custom(),
    {
        PathGuardedTool { inner, security, custom: false }
    }

    /// The same guard for a tool with an extractor of its own, for non-standard
    /// arg names. The extractor stays with the caller; what it finds is given to
    /// `questions`.
    pub fn with_extractor(self) -> (r: Self)
        ensures
            r.held_tool() == self.held_tool(),
            r.held_security() == self.held_security(),
            r.is_custom(),
    {
        PathGuardedTool { inner: self.inner, security: self.security, custom: true }
    }

    /// The tool inside.
    pub fn inner(&self) -> (r: &T)
        ensures
            *r == self.held_tool(),
    {
        &self.inner
    }

    /// The policy that is asked.
    pub fn security(&self) -> (r: &S)
        ensures
            *r == self.held_security(),
    {
        &self.security
    }

    /// What the security policy is to be asked about a call: about what the
    /// tool's own extractor found, where it has one, otherwise about each of the
    /// common fields.
    pub fn questions(&self, args: &Json, extracted: Option<String>) -> (r: Vec<PathQuestion>)
        ensures
            question_views(r@) == if self.is_custom() {
                checked(text::view_opt_string(extracted))
            } else {
                field_questions(args@)
            },
    {
        let mut r: Vec<PathQuestion> = Vec::new();
        proof {
            assert(question_views(r@) =~= Seq::<QuestionView>::empty());
        }
        if self.custom {
            check(&mut r, extracted);
            proof {
                let asked = checked(text::view_opt_string(extracted));
                assert(Seq::<QuestionView>::empty() + asked =~= asked);
            }
            return r;
        }
        check(&mut r, text_of(args, "path"));
        scan(&mut r, text_of(args, "command"));
        check(&mut r, text_of(args, "pattern"));
        check(&mut r, text_of(args, "query"));
        check(&mut r, text_of(args, "file"));
        proof {
            assert(question_views(r@) =~= field_questions(args@));
        }
        r
    }
}

fn check(questions: &mut Vec<PathQuestion>, path: Option<String>)
    ensures
        question_views(final(questions)@) == question_views(old(questions)@) + checked(
            text::view_opt_string(path),
        ),
{
    if let Some(s) = path {
        questions.push(PathQuestion::Allowed(s));
    }
    proof {
        assert(question_views(questions@) =~= question_views(old(questions)@) + checked(
            text::view_opt_string(path),
        ));
    }
}

fn scan(questions: &mut Vec<PathQuestion>, command: Option<String>)
    ensures
        question_views(final(questions)@) == question_views(old(questions)@) + scanned(
            text::view_opt_string(command),
        ),
{
    if let Some(s) = command {
        questions.push(PathQuestion::ForbiddenIn(s));
    }
    proof {
        assert(question_views(questions@) =~= question_views(old(questions)@) + scanned(
            text::view_opt_string(command),
        ));
    }
}

/// Whether the call goes on, where the policy has looked for a forbidden path in
/// a command.
pub fn after_scan(forbidden: Option<&str>) -> (r: Gate)
    ensures
        r@ == match forbidden {
            Some(path) => blocked(path@),
            None => GateView::Open,
        },
{
    match forbidden {
        Some(path) => block(path),
        None => Gate::Open,
    }
}

/// Whether the call goes on, where the policy has looked at a path.
pub fn after_check(path: &str, is_allowed: bool) -> (r: Gate)
    ensures
        r@ == if is_allowed {
            GateView::Open
        } else {
            blocked(path@)
        },
{
    if is_allowed {
        Gate::Open
    } else {
        block(path)
    }
}

/// What gates say.
pub open spec fn gate_views(gates: Seq<Gate>) -> Seq<GateView> {
    gates.map_values(|g: Gate| g@)
}

/// The first gate that is closed, or an open one where none is.
pub open spec fn first_closed(gates: Seq<GateView>) -> GateView
    decreases gates.len(),
{
    if gates.len() == 0 {
        GateView::Open
    } else if gates[0] is Closed {
        gates[0]
    } else {
        first_closed(gates.skip(1))
    }
}

/// Whether a call goes on, where each question about it has an answer.
pub fn after_all(answers: Vec<Gate>) -> (r: Gate)
    ensures
        r@ == first_closed(gate_views(answers@)),
{
    let ghost all = gate_views(answers@);
    let mut left = answers;
    let mut r = Gate::Open;
    proof {
        assert(all.skip(all.len() as int) =~= Seq::<GateView>::empty());
        assert(all.take(all.len() as int) =~= all);
    }
    while left.len() > 0
        invariant
            gate_views(left@) == all.take(left@.len() as int),
            left@.len() <= all.len(),
            r@ == first_closed(all.skip(left@.len() as int)),
        decreases left@.len(),
    {
        let ghost n = left@.len() as int;
        let ghost before = left@;
        proof {
            assert(all[n - 1] == all.take(n)[n - 1]);
            assert(gate_views(left@)[n - 1] == left@[n - 1]@);
            assert(all.skip(n - 1)[0] == all[n - 1]);
            assert(all.skip(n - 1).skip(1) =~= all.skip(n));
        }
        if let Some(gate) = left.pop() {
            match gate {
                Gate::Closed(refusal) => {
                    r = Gate::Closed(refusal);
                },
                Gate::Open => {},
            }
        }
        proof {
            assert(gate_views(left@) =~= gate_views(before).take(n - 1));
            assert(all.take(n).take(n - 1) =~= all.take(n - 1));
        }
    }
    proof {
        assert(all.skip(0) =~= all);
    }
    r
}

/// The policy is asked about every field that holds a path, and about the
/// command.
pub proof fn law_named_path_is_questioned(args: JsonView, s: Seq<char>)
    ensures
        args.text_at("path"@) == Some(s) || args.text_at("pattern"@) == Some(s) || args.text_at(
            "query"@,
        ) == Some(s) || args.text_at("file"@) == Some(s) ==> field_questions(args).contains(
            QuestionView::Allowed(s),
        ),
        args.text_at("command"@) == Some(s) ==> field_questions(args).contains(
            QuestionView::ForbiddenIn(s),
        ),
{
    let path = checked(args.text_at("path"@));
    let command = scanned(args.text_at("command"@));
    let pattern = checked(args.text_at("pattern"@));
    let query = checked(args.text_at("query"@));
    let file = checked(args.text_at("file"@));
    let all = field_questions(args);
    if args.text_at("path"@) == Some(s) {
        assert(all[0] == path[0]);
    }
    if args.text_at("command"@) == Some(s) {
        assert(all[path.len() as int] == command[0]);
    }
    if args.text_at("pattern"@) == Some(s) {
        assert(all[(path + command).len() as int] == pattern[0]);
    }
    if args.text_at("query"@) == Some(s) {
        assert(all[(path + command + pattern).len() as int] == query[0]);
    }
    if args.text_at("file"@) == Some(s) {
        assert(all[(path + command + pattern + query).len() as int] == file[0]);
    }
}

/// One blocked path blocks the call, and only a blocked path does.
pub proof fn law_one_blocked_path_blocks_the_call(gates: Seq<GateView>)
    ensures
        first_closed(gates) is Closed <==> exists|i: int|
            0 <= i < gates.len() && (#[trigger] gates[i]) is Closed,
        first_closed(gates) is Closed ==> gates.contains(first_closed(gates)),
    decreases gates.len(),
{
    if gates.len() > 0 && gates[0] is Open {
        let rest = gates.skip(1);
        law_one_blocked_path_blocks_the_call(rest);
        if exists|i: int| 0 <= i < gates.len() && (#[trigger] gates[i]) is Closed {
            let i = choose|i: int| 0 <= i < gates.len() && (#[trigger] gates[i]) is Closed;
            assert(rest[i - 1] is Closed);
        }
        if first_closed(rest) is Closed {
            let i = choose|i: int| 0 <= i < rest.len() && rest[i] == first_closed(rest);
            assert(gates[i + 1] == first_closed(gates));
        }
    }
}

// ---------------------------------------------------------------------------
// LoggedTool
// ---------------------------------------------------------------------------

/// Wraps a tool so that what comes out of every call is reported, and no tool
/// failure is ever silent.
///
/// - DEBUG on success, with the length of the output.
/// - WARN where the tool itself reports a failure, with its error. This is the
///   most common failure mode because most tools catch their own errors.
/// - ERROR where the call fails, with the whole chain of causes.
///
/// What the tool gave back is passed on unchanged.
pub struct LoggedTool<T> {
    inner: T,
}

/// What is reported of a call.
pub enum BoundaryEvent {
    /// DEBUG: the call succeeded.
    Succeeded { output_len: usize },
    /// WARN: the tool reported a failure.
    ReportedFailure { error: String, output_len: usize },
    /// ERROR: the call failed.
    Failed { error: String, error_chain: String },
}

/// What is reported of a call.
#[verifier::ext_equal]
pub enum EventView {
    Succeeded { output_len: nat },
    ReportedFailure { error: Seq<char>, output_len: nat },
    Failed { error: Seq<char>, error_chain: Seq<char> },
}

impl View for BoundaryEvent {
    type V = EventView;

    open spec fn view(&self) -> EventView {
        match self {
            BoundaryEvent::Succeeded { output_len } => EventView::Succeeded {
                output_len: *output_len as nat,
            },
            BoundaryEvent::ReportedFailure { error, output_len } => EventView::ReportedFailure {
                error: error@,
                output_len: *output_len as nat,
            },
            BoundaryEvent::Failed { error, error_chain } => EventView::Failed {
                error: error@,
                error_chain: error_chain@,
            },
        }
    }
}

/// What is reported of a call that gave back a result.
pub open spec fn event_of_result(t: ToolResultView) -> EventView {
    let output_len = text::byte_len(t.output);
    if t.success {
        EventView::Succeeded { output_len }
    } else {
        EventView::ReportedFailure {
            error: match t.error {
                Some(e) => e,
                None => "<none>"@,
            },
            output_len,
        }
    }
}

impl<T> LoggedTool<T> {
    /// The tool inside.
    pub closed spec fn held_tool(&self) -> T {
        self.inner
    }

    /// Wrap a tool.
    pub fn new(inner: T) -> (r: Self)
        ensures
            r.held_tool() == inner,
    {
        LoggedTool { inner }
    }

    /// The tool inside.
    pub fn inner(&self) -> (r: &T)
        ensures
            *r == self.held_tool(),
    {
        &self.inner
    }

    /// What is reported of a call that gave back a result.
    pub fn on_result(&self, result: &ToolResult) -> (r: BoundaryEvent)
        ensures
            r@ == event_of_result(result@),
    {
        let output_len: usize = text::byte_length(result.output.as_str());
        if result.success {
            BoundaryEvent::Succeeded { output_len }
        } else {
            let error = match &result.error {
                Some(e) => e.clone(),
                None => "<none>".to_string(),
            };
            BoundaryEvent::ReportedFailure { error, output_len }
        }
    }

    /// What is reported of a call that failed; `chain` is the error and its
    /// causes, outermost first.
    pub fn on_error(&self, error: &str, chain: &Vec<String>) -> (r: BoundaryEvent)
        ensures
            r@ == (EventView::Failed {
                error: error@,
                error_chain: text::join(text::views(chain@), " | caused by: "@),
            }),
    {
        BoundaryEvent::Failed {
            error: error.to_string(),
            error_chain: text::joined(chain, " | caused by: "),
        }
    }
}

impl<T> LoggedTool<Box<T>> {
    /// Wrap an already-boxed tool.
    pub fn wrap_boxed(inner: Box<T>) -> (r: Self)
        ensures
            r.held_tool() == inner,
    {
        LoggedTool { inner }
    }
}

/// Every cause of a failed call stands in what is reported.
pub proof fn law_root_cause_is_reported(chain: Seq<Seq<char>>, i: int)
    requires
        0 <= i < chain.len(),
    ensures
        text::contains(text::join(chain, " | caused by: "@), chain[i]),
{
    text::lemma_contains_self(chain[i]);
    text::lemma_join_contains(chain, " | caused by: "@, i, chain[i]);
}

/// Only a success is not reported as a failure.
pub proof fn law_failures_are_never_silent(t: ToolResultView)
    ensures
        t.success <==> event_of_result(t) is Succeeded,
{
}

// ---------------------------------------------------------------------------
// Further laws
// ---------------------------------------------------------------------------

/// The result that a closed gate gives.
pub open spec fn refusal(gate: GateView) -> ToolResultView {
    match gate {
        GateView::Closed(t) => t,
        GateView::Open => traits::success(Seq::<char>::empty()),
    }
}

/// A call is refused where the limit is reached, whatever the guards inside say,
/// and where its action cannot be recorded; each time with a failure that names
/// the limit. Otherwise what the guards inside say stands.
pub proof fn law_the_limit_refuses_calls(inner: GateView)
    ensures
        first_gate(true, inner) is Closed && !refusal(first_gate(true, inner)).success,
        refusal(first_gate(true, inner)).error == Some(
            "Rate limit exceeded: too many actions in the last hour"@,
        ),
        first_gate(false, inner) == inner,
        second_gate(true) is Open,
        second_gate(false) is Closed && !refusal(second_gate(false)).success,
        refusal(second_gate(false)).error == Some("Rate limit exceeded: action budget exhausted"@),
{
}

/// A blocked path ends the call with a failure whose message ends with the path.
pub proof fn law_blocked_paths_are_named(path: Seq<char>)
    ensures
        blocked(path) is Closed && !refusal(blocked(path)).success,
        refusal(blocked(path)).output.len() == 0,
        refusal(blocked(path)).error is Some,
        text::has_suffix(refusal(blocked(path)).error->0, path),
        text::has_prefix(refusal(blocked(path)).error->0, "Path blocked by security policy: "@),
        refusal(blocked(path)).error->0.len() == path.len() + 33,
{
    let said = "Path blocked by security policy: "@;
    reveal_strlit("Path blocked by security policy: ");
    text::lemma_suffix(said, path);
    text::lemma_prefix(said, path);
}

/// The policy is asked about no other text than that of the fields that hold a
/// path, and only the command is scanned for one.
pub proof fn law_only_the_fields_are_questioned(args: JsonView, s: Seq<char>)
    ensures
        field_questions(args).contains(QuestionView::Allowed(s)) ==> args.text_at("path"@) == Some(
            s,
        ) || args.text_at("pattern"@) == Some(s) || args.text_at("query"@) == Some(s)
            || args.text_at("file"@) == Some(s),
        field_questions(args).contains(QuestionView::ForbiddenIn(s)) ==> args.text_at("command"@)
            == Some(s),
        args.text_at("path"@) is None && args.text_at("command"@) is None && args.text_at(
            "pattern"@,
        ) is None && args.text_at("query"@) is None && args.text_at("file"@) is None
            ==> field_questions(args).len() == 0,
        checked(Some(s)).len() == 1 && checked(Some(s))[0] == QuestionView::Allowed(s),
        scanned(Some(s)).len() == 1 && scanned(Some(s))[0] == QuestionView::ForbiddenIn(s),
        checked(None).len() == 0 && scanned(None).len() == 0,
{
    let a = checked(args.text_at("path"@));
    let b = scanned(args.text_at("command"@));
    let c = checked(args.text_at("pattern"@));
    let d = checked(args.text_at("query"@));
    let e = checked(args.text_at("file"@));
    let all = field_questions(args);
    assert forall|q: QuestionView| all.contains(q) implies a.contains(q) || b.contains(q)
        || c.contains(q) || d.contains(q) || e.contains(q) by {
        let i = choose|i: int| 0 <= i < all.len() && all[i] == q;
        let n1 = a.len() as int;
        let n2 = n1 + b.len();
        let n3 = n2 + c.len();
        let n4 = n3 + d.len();
        if i < n1 {
            assert(a[i] == q);
        } else if i < n2 {
            assert(b[i - n1] == q);
        } else if i < n3 {
            assert(c[i - n2] == q);
        } else if i < n4 {
            assert(d[i - n3] == q);
        } else {
            assert(e[i - n4] == q);
        }
    }
}

/// The call ends with the first of the gates that are closed.
pub proof fn law_the_first_closed_gate_decides(open: Seq<GateView>, gate: GateView, rest: Seq<GateView>)
    requires
        forall|i: int| 0 <= i < open.len() ==> (#[trigger] open[i]) is Open,
        gate is Closed,
    ensures
        first_closed(open + seq![gate] + rest) == gate,
        first_closed(open) is Open,
    decreases open.len(),
{
    let all = open + seq![gate] + rest;
    if open.len() == 0 {
        assert(all[0] == gate);
    } else {
        assert(all[0] == open[0]);
        law_the_first_closed_gate_decides(open.skip(1), gate, rest);
        assert(all.skip(1) =~= open.skip(1) + seq![gate] + rest);
    }
}

/// What is reported of a result: how many bytes the output has, and of a failure
/// the error that the tool gave.
pub proof fn law_reports_tell_the_result(t: ToolResultView, error: Seq<char>)
    ensures
        t.success ==> event_of_result(t) == (EventView::Succeeded {
            output_len: text::byte_len(t.output),
        }),
        !t.success && t.error == Some(error) ==> event_of_result(t) == (
        EventView::ReportedFailure { error, output_len: text::byte_len(t.output) }),
        !t.success && t.error is None ==> event_of_result(t) == (EventView::ReportedFailure {
            error: "<none>"@,
            output_len: text::byte_len(t.output),
        }),
{
}

} // verus!
