//! Background memory dreaming — cross-session consolidation.
//!
//! A three-gate dream engine that periodically consolidates Daily memories into
//! patterns, core facts, and contradiction flags via an LLM pass. Loading,
//! asking and storing are the caller's; this module decides when to dream, what
//! to ask and what to do with the answer.

use crate::clock;
use crate::clock::Moment;
use crate::ids;
use crate::text;
use vstd::prelude::*;

verus! {

// ---------------------------------------------------------------------------
// Configuration and state
// ---------------------------------------------------------------------------

/// Configuration for the dream engine.
#[derive(Debug, Clone)]
pub struct DreamConfig {
    /// Whether the dream engine is enabled.
    pub enabled: bool,
    /// Minimum hours that must elapse between dream runs.
    pub min_hours_between_dreams: u64,
    /// Minimum sessions that must pass since the last dream.
    pub min_sessions_between_dreams: u64,
}

impl Default for DreamConfig {
    fn default() -> (r: Self)
        ensures
            r.enabled,
            r.min_hours_between_dreams == 24,
            r.min_sessions_between_dreams == 5,
    {
        DreamConfig { enabled: true, min_hours_between_dreams: 24, min_sessions_between_dreams: 5 }
    }
}

/// Runtime state used to evaluate whether a dream pass should run.
pub struct DreamState {
    /// When the last dream was completed, or `None` if never.
    pub last_dream_at: Option<Moment>,
    /// How many sessions have started since the last dream.
    pub sessions_since_dream: u64,
    /// Whether a dream is already in progress (lock gate).
    pub dreaming: bool,
}

// ---------------------------------------------------------------------------
// Gate evaluation
// ---------------------------------------------------------------------------

/// The gates that do not look at the time.
pub open spec fn may_look_at_time(state: DreamState, config: DreamConfig) -> bool {
    &&& config.enabled
    &&& !state.dreaming
    &&& state.sessions_since_dream >= config.min_sessions_between_dreams
}

/// All three gates pass at the given moment.
pub open spec fn dreams_at(state: DreamState, config: DreamConfig, now: Moment) -> bool {
    &&& may_look_at_time(state, config)
    &&& match state.last_dream_at {
        None => true,
        Some(last) => clock::moment_nanos(now) - clock::moment_nanos(last)
            >= config.min_hours_between_dreams * 3_600_000_000_000,
    }
}

/// Check whether all three gates pass and a dream should be triggered.
///
/// Gate 1 — **Time**: at least `min_hours_between_dreams` have elapsed since
///   the last dream, or the agent has never dreamed before.
/// Gate 2 — **Sessions**: at least `min_sessions_between_dreams` have started
///   since the last dream.
/// Gate 3 — **Lock**: no dream is currently in progress.
pub fn should_dream_at(state: &DreamState, config: &DreamConfig, now: Moment) -> (r: bool)
    ensures
        r == dreams_at(*state, *config, now),
{
    if !config.enabled {
        return false;
    }

    // Gate 3: lock
    if state.dreaming {
        return false;
    }

    // Gate 2: sessions
    if state.sessions_since_dream < config.min_sessions_between_dreams {
        return false;
    }

    // Gate 1: time
    match state.last_dream_at {
        None => true,  // Never dreamed — always pass the time gate.
        Some(last) => {
            let elapsed: i128 = clock::nanos_between(last, now);
            let hours: i128 = config.min_hours_between_dreams as i128;
            elapsed >= hours * 3_600_000_000_000
        },
    }
}

/// Whether a dream should be triggered now, by the clock of the machine.
pub fn should_dream(state: &DreamState, config: &DreamConfig) -> (r: bool)
    ensures
        exists|now: Moment|
            clock::is_moment_read(now) && r == #[trigger] dreams_at(*state, *config, now),
{
    let now = clock::moment();
    should_dream_at(state, config, now)
}

/// The time gate does not close again while time passes.
pub proof fn law_time_gate_stays_open(
    state: DreamState,
    config: DreamConfig,
    now: Moment,
    later: Moment,
)
    requires
        dreams_at(state, config, now),
        clock::moment_nanos(now) <= clock::moment_nanos(later),
    ensures
        dreams_at(state, config, later),
{
}

/// Hours that reach beyond the range of moments keep the time gate closed.
pub proof fn law_endless_wait_keeps_the_gate_closed(
    state: DreamState,
    config: DreamConfig,
    now: Moment,
)
    requires
        state.last_dream_at is Some,
        config.min_hours_between_dreams > u64::MAX / 3_600 + 1,
    ensures
        !dreams_at(state, config, now),
{
}

/// No dream starts while one is running, or before enough sessions, at any time.
pub proof fn law_closed_gate_holds_at_all_times(
    state: DreamState,
    config: DreamConfig,
    now: Moment,
)
    requires
        !config.enabled || state.dreaming || state.sessions_since_dream
            < config.min_sessions_between_dreams,
    ensures
        !dreams_at(state, config, now),
{
}

// ---------------------------------------------------------------------------
// Dream result
// ---------------------------------------------------------------------------

/// Result of a dream consolidation run.
#[derive(Debug)]
pub struct DreamResult {
    /// Cross-session patterns identified by the LLM.
    pub patterns: Vec<String>,
    /// Core facts worth promoting to the Core memory category.
    pub core_memories: Vec<String>,
    /// Contradictions detected between existing memories.
    pub contradictions: Vec<String>,
    /// Keys of stale entries that should be archived / forgotten.
    pub stale_entry_keys: Vec<String>,
}

/// What a dream result says.
#[verifier::ext_equal]
pub struct DreamView {
    pub patterns: Seq<Seq<char>>,
    pub core_memories: Seq<Seq<char>>,
    pub contradictions: Seq<Seq<char>>,
    pub stale_entry_keys: Seq<Seq<char>>,
}

impl View for DreamResult {
    type V = DreamView;

    open spec fn view(&self) -> DreamView {
        DreamView {
            patterns: text::views(self.patterns@),
            core_memories: text::views(self.core_memories@),
            contradictions: text::views(self.contradictions@),
            stale_entry_keys: text::views(self.stale_entry_keys@),
        }
    }
}

/// A dream that found nothing.
pub open spec fn empty_dream() -> DreamView {
    let none = Seq::<Seq<char>>::empty();
    DreamView { patterns: none, core_memories: none, contradictions: none, stale_entry_keys: none }
}

impl DreamResult {
    /// A dream that found nothing.
    pub fn empty() -> (r: Self)
        ensures
            r@ == empty_dream(),
    {
        let r = DreamResult {
            patterns: Vec::new(),
            core_memories: Vec::new(),
            contradictions: Vec::new(),
            stale_entry_keys: Vec::new(),
        };
        proof {
            assert(r@ =~= empty_dream());
        }
        r
    }
}

// ---------------------------------------------------------------------------
// Asking
// ---------------------------------------------------------------------------

pub const DREAM_SYSTEM_PROMPT: &'static str = r#"You are a memory consolidation engine performing a "dream" pass over recent conversation history.

Your task:
1. Identify recurring PATTERNS across multiple sessions (behavioural tendencies, repeated topics, habitual workflows).
2. Extract CORE FACTS — stable, long-term truths about the user or their environment that should survive beyond daily logs.
3. Note CONTRADICTIONS — pairs or groups of memories that conflict with each other and need human review.
4. Flag STALE ENTRIES — memory keys whose information is likely outdated or superseded.

Guidelines:
- Be concise. Each item should be a single clear sentence.
- Only emit items you are confident about.
- For stale_entry_keys, return the exact key strings as they appear in the memory list.
- Do not invent information that is not present in the provided memories.

Respond ONLY with valid JSON in exactly this shape:
{"patterns":[],"core_memories":[],"contradictions":[],"stale_entry_keys":[]}"#;

/// The number of daily memories that one dream reads at most.
pub const MAX_ENTRIES: usize = 200;

/// A daily memory.
#[derive(Debug, Clone)]
pub struct DailyEntry {
    pub key: String,
    pub content: String,
}

/// A memory as one line.
pub open spec fn entry_line(e: DailyEntry) -> Seq<char> {
    "["@ + e.key@ + "] "@ + e.content@
}

/// The first memories, one per line.
pub open spec fn memory_text(entries: Seq<DailyEntry>) -> Seq<char> {
    let n = if entries.len() < MAX_ENTRIES {
        entries.len() as int
    } else {
        MAX_ENTRIES as int
    };
    text::join(entries.take(n).map_values(|e: DailyEntry| entry_line(e)), "\n"@)
}

/// What a dream asks of the model: nothing where there are no daily memories.
/// What is asked goes with `DREAM_SYSTEM_PROMPT`.
pub fn dream_prompt(entries: &[DailyEntry]) -> (r: Option<String>)
    ensures
        r is None <==> entries@.len() == 0,
        r matches Some(t) ==> t@ == memory_text(entries@),
{
    if entries.len() == 0 {
        return None;
    }
    let n: usize = if entries.len() < MAX_ENTRIES {
        entries.len()
    } else {
        MAX_ENTRIES
    };
    let ghost wanted = entries@.take(n as int).map_values(|e: DailyEntry| entry_line(e));
    let mut lines: Vec<String> = Vec::new();
    for i in 0..n
        invariant
            n <= entries@.len(),
            wanted == entries@.take(n as int).map_values(|e: DailyEntry| entry_line(e)),
            text::views(lines@) == wanted.take(i as int),
    {
        let ghost before = text::views(lines@);
        let e = &entries[i];
        let line = text::cat4("[", e.key.as_str(), "] ", e.content.as_str());
        lines.push(line);
        proof {
            assert(wanted[i as int] == entry_line(*e));
            assert(text::views(lines@) =~= before.push(entry_line(*e)));
            assert(wanted.take(i + 1) =~= before.push(entry_line(*e)));
        }
    }
    proof {
        assert(wanted.take(n as int) =~= wanted);
    }
    Some(text::joined(&lines, "\n"))
}

/// The JSON in the model's answer: the text without white space and code fences
/// around it.
pub open spec fn dream_json(raw: Seq<char>) -> Seq<char> {
    text::trim(
        text::without_trailing(
            text::without_leading(text::without_leading(text::trim(raw), "```json"@), "```"@),
            "```"@,
        ),
    )
}

/// The part of the model's answer in which a `DreamResult` is to be read.
pub fn clean_response(raw: &str) -> (r: &str)
    ensures
        r@ == dream_json(raw@),
{
    proof {
        reveal_strlit("```json");
        reveal_strlit("```");
    }
    let opened = text::strip_leading(text::strip_leading(text::trimmed(raw), "```json"), "```");
    text::trimmed(text::strip_trailing(opened, "```"))
}

// ---------------------------------------------------------------------------
// Acting on the answer
// ---------------------------------------------------------------------------

/// What is to be done after a dream.
pub enum DreamAction {
    /// Add a pattern to the knowledge graph, under the title `Dream Pattern`.
    StorePattern(String),
    /// Store a core memory.
    StoreCore { key: String, content: String },
    /// Forget a stale entry.
    Forget(String),
}

/// What an action says, but for the random key of a core memory.
#[verifier::ext_equal]
pub enum ActionView {
    StorePattern(Seq<char>),
    StoreCore(Seq<char>),
    Forget(Seq<char>),
}

impl View for DreamAction {
    type V = ActionView;

    open spec fn view(&self) -> ActionView {
        match self {
            DreamAction::StorePattern(p) => ActionView::StorePattern(p@),
            DreamAction::StoreCore { key, content } => ActionView::StoreCore(content@),
            DreamAction::Forget(k) => ActionView::Forget(k@),
        }
    }
}

/// What actions say.
pub open spec fn action_views(actions: Seq<DreamAction>) -> Seq<ActionView> {
    actions.map_values(|a: DreamAction| a@)
}

/// The prefix of the key of a core memory that a dream stores.
pub const CORE_KEY_PREFIX: &'static str = "dream_core_";

/// The action stores a core memory under a random key, or it is another one.
pub open spec fn is_well_keyed(a: DreamAction) -> bool {
    match a {
        DreamAction::StoreCore { key, content } => {
            &&& text::has_prefix(key@, CORE_KEY_PREFIX@)
            &&& ids::is_uuid_v4(key@.skip(CORE_KEY_PREFIX@.len() as int))
            &&& ids::is_drawn(key@.skip(CORE_KEY_PREFIX@.len() as int))
        },
        _ => true,
    }
}

/// The core memories that say something.
pub open spec fn not_blank(memories: Seq<Seq<char>>) -> Seq<Seq<char>>
    decreases memories.len(),
{
    if memories.len() == 0 {
        memories
    } else {
        let before = not_blank(memories.drop_last());
        if text::trim(memories.last()).len() > 0 {
            before.push(memories.last())
        } else {
            before
        }
    }
}

/// What is to be done after a dream, in order: the patterns where there is a
/// knowledge graph, the core memories that are not blank, the stale entries.
pub open spec fn actions_for(d: DreamView, has_graph: bool) -> Seq<ActionView> {
    let patterns = if has_graph {
        d.patterns.map_values(|p: Seq<char>| ActionView::StorePattern(p))
    } else {
        Seq::<ActionView>::empty()
    };
    patterns + not_blank(d.core_memories).map_values(|c: Seq<char>| ActionView::StoreCore(c))
        + d.stale_entry_keys.map_values(|k: Seq<char>| ActionView::Forget(k))
}

/// What is to be done after a dream.
pub fn dream_actions(result: &DreamResult, has_graph: bool) -> (r: Vec<DreamAction>)
    ensures
        action_views(r@) == actions_for(result@, has_graph),
        forall|i: int| 0 <= i < r@.len() ==> is_well_keyed(#[trigger] r@[i]),
{
    let ghost d = result@;
    let mut r: Vec<DreamAction> = Vec::new();
    let ghost patterns = if has_graph {
        d.patterns.map_values(|p: Seq<char>| ActionView::StorePattern(p))
    } else {
        Seq::<ActionView>::empty()
    };
    if has_graph {
        for i in 0..result.patterns.len()
            invariant
                d == result@,
                patterns == d.patterns.map_values(|p: Seq<char>| ActionView::StorePattern(p)),
                action_views(r@) == patterns.take(i as int),
                forall|k: int| 0 <= k < r@.len() ==> is_well_keyed(#[trigger] r@[k]),
        {
            let ghost before = action_views(r@);
            r.push(DreamAction::StorePattern(result.patterns[i].clone()));
            proof {
                assert(patterns[i as int] == ActionView::StorePattern(d.patterns[i as int]));
                assert(action_views(r@) =~= before.push(patterns[i as int]));
                assert(patterns.take(i + 1) =~= before.push(patterns[i as int]));
            }
        }
    }
    proof {
        assert(patterns.take(patterns.len() as int) =~= patterns);
        assert(action_views(r@) =~= patterns);
        assert(d.core_memories.take(0) =~= Seq::<Seq<char>>::empty());
        assert(patterns + not_blank(d.core_memories.take(0)).map_values(
            |c: Seq<char>| ActionView::StoreCore(c),
        ) =~= patterns);
    }
    for i in 0..result.core_memories.len()
        invariant
            d == result@,
            action_views(r@) == patterns + not_blank(d.core_memories.take(i as int)).map_values(
                |c: Seq<char>| ActionView::StoreCore(c),
            ),
            forall|k: int| 0 <= k < r@.len() ==> is_well_keyed(#[trigger] r@[k]),
    {
        let ghost before = action_views(r@);
        let ghost kept = not_blank(d.core_memories.take(i as int));
        let memory = &result.core_memories[i];
        proof {
            assert(d.core_memories.take(i + 1).drop_last() =~= d.core_memories.take(i as int));
            assert(d.core_memories.take(i + 1).last() == memory@);
        }
        if text::trimmed(memory.as_str()).unicode_len() > 0 {
            let id = ids::new_id();
            let key = text::cat2(CORE_KEY_PREFIX, id.as_str());
            proof {
                assert(key@.take(CORE_KEY_PREFIX@.len() as int) =~= CORE_KEY_PREFIX@);
                assert(key@.skip(CORE_KEY_PREFIX@.len() as int) =~= id@);
            }
            r.push(DreamAction::StoreCore { key, content: memory.clone() });
            proof {
                assert(action_views(r@) =~= before.push(ActionView::StoreCore(memory@)));
                assert(action_views(r@) =~= patterns + kept.push(memory@).map_values(
                    |c: Seq<char>| ActionView::StoreCore(c),
                ));
            }
        }
    }
    proof {
        assert(d.core_memories.take(d.core_memories.len() as int) =~= d.core_memories);
    }
    let ghost upto = action_views(r@);
    let ghost stale = d.stale_entry_keys.map_values(|k: Seq<char>| ActionView::Forget(k));
    proof {
        assert(upto + stale.take(0) =~= upto);
    }
    for i in 0..result.stale_entry_keys.len()
        invariant
            d == result@,
            stale == d.stale_entry_keys.map_values(|k: Seq<char>| ActionView::Forget(k)),
            action_views(r@) == upto + stale.take(i as int),
            forall|k: int| 0 <= k < r@.len() ==> is_well_keyed(#[trigger] r@[k]),
    {
        let ghost before = action_views(r@);
        r.push(DreamAction::Forget(result.stale_entry_keys[i].clone()));
        proof {
            assert(stale[i as int] == ActionView::Forget(d.stale_entry_keys[i as int]));
            assert(action_views(r@) =~= before.push(stale[i as int]));
            assert(upto + stale.take(i + 1) =~= before.push(stale[i as int]));
        }
    }
    proof {
        assert(stale.take(stale.len() as int) =~= stale);
    }
    r
}

/// A dream that found nothing leaves nothing to do.
pub proof fn law_empty_dream_changes_nothing(has_graph: bool)
    ensures
        actions_for(empty_dream(), has_graph) == Seq::<ActionView>::empty(),
{
    assert(actions_for(empty_dream(), has_graph) =~= Seq::<ActionView>::empty());
}

// ---------------------------------------------------------------------------
// Further laws
// ---------------------------------------------------------------------------

/// When a dream starts: dreaming is on, none is running, enough sessions have
/// started, and, unless there was no dream before, so many whole hours have
/// passed since the last one.
pub proof fn law_when_a_dream_starts(
    state: DreamState,
    config: DreamConfig,
    now: Moment,
    hours: int,
)
    ensures
        state.last_dream_at is None ==> (dreams_at(state, config, now) <==> config.enabled
            && !state.dreaming && state.sessions_since_dream
            >= config.min_sessions_between_dreams),
        state.last_dream_at is Some && clock::moment_nanos(now) - clock::moment_nanos(
            state.last_dream_at->0,
        ) == hours * 60 * 60 * 1_000_000_000 ==> (dreams_at(state, config, now) <==> config.enabled
            && !state.dreaming && state.sessions_since_dream
            >= config.min_sessions_between_dreams && hours >= config.min_hours_between_dreams),
        state.last_dream_at is Some && 0 < hours * 3_600_000_000_000 - (clock::moment_nanos(now)
            - clock::moment_nanos(state.last_dream_at->0)) && hours
            <= config.min_hours_between_dreams ==> !dreams_at(state, config, now),
{
}

/// A memory alone is asked about with its key in brackets before it; memories go
/// in their order, each on a line of its own; and only the first two hundred do.
pub proof fn law_memories_stand_on_lines_of_their_own(
    e: DailyEntry,
    a: Seq<DailyEntry>,
    b: Seq<DailyEntry>,
)
    requires
        a.len() > 0,
        b.len() > 0,
    ensures
        memory_text(seq![e]) == "["@ + e.key@ + "] "@ + e.content@,
        a.len() + b.len() <= 200 ==> memory_text(a + b) == memory_text(a) + "\n"@ + memory_text(b),
        a.len() == 200 ==> memory_text(a + b) == memory_text(a),
{
    let line = |e: DailyEntry| entry_line(e);
    assert(seq![e].take(1) =~= seq![e]);
    let one = seq![e].map_values(line);
    assert(one.drop_last() =~= Seq::<Seq<char>>::empty());
    assert(one[0] == entry_line(e));
    assert(a.take(a.len() as int) =~= a);
    assert(b.take(b.len() as int) =~= b);
    if a.len() + b.len() <= 200 {
        assert((a + b).take((a + b).len() as int) =~= a + b);
        assert((a + b).map_values(line) =~= a.map_values(line) + b.map_values(line));
        text::law_joining_puts_the_separator_between(
            a.map_values(line),
            b.map_values(line),
            "\n"@,
        );
    }
    if a.len() == 200 {
        assert((a + b).take(200) =~= a);
    }
}

/// An answer without code fences is read as it stands, less the space around it;
/// one in code fences without them, with or without the name of the language.
pub proof fn law_fences_come_off_the_answer(a: Seq<char>, s: Seq<char>, b: Seq<char>)
    requires
        text::only_space(a),
        text::only_space(b),
        s.len() > 0,
        !text::is_space(s[0]) && !text::is_space(s.last()),
        s[0] != '`' && s.last() != '`',
    ensures
        dream_json(a + s + b) == s,
        dream_json("```json\n"@ + s + "\n```"@) == s,
        dream_json("```\n"@ + s + "\n```"@) == s,
{
    reveal_strlit("```json");
    reveal_strlit("```");
    reveal_strlit("```json\n");
    reveal_strlit("```\n");
    reveal_strlit("\n```");
    assert("```json"@.len() == 7 && "```"@.len() == 3 && "```json"@[0] == '`' && "```"@[0] == '`');
    text::lemma_trim_around(a, s, b);
    lemma_no_fence(s);
    text::law_all_copies_come_off("```json"@, s);
    text::law_all_copies_come_off("```"@, s);
    text::lemma_nothing_to_trim(s);
    let kept = seq!['\n'] + s + seq!['\n'];
    let inner = kept + "```"@;
    assert(kept[0] == '\n' && kept.last() == '\n');
    lemma_no_fence(kept);
    assert(inner[0] == '\n');
    assert(!text::has_prefix(inner, "```json"@)) by {
        if text::has_prefix(inner, "```json"@) {
            assert(inner.take(7)[0] == '`');
        }
    }
    assert(!text::has_prefix(inner, "```"@)) by {
        if text::has_prefix(inner, "```"@) {
            assert(inner.take(3)[0] == '`');
        }
    }
    text::law_all_copies_come_off("```json"@, inner);
    text::law_all_copies_come_off("```"@, inner);
    text::law_all_copies_come_off("```"@, kept);
    assert(text::is_space('\n') && !text::is_space('`'));
    text::lemma_trim_around(seq!['\n'], s, seq!['\n']);
    let named = "```json\n"@ + s + "\n```"@;
    assert(named =~= "```json"@ + inner);
    assert(named[0] == '`' && named.last() == '`');
    text::lemma_nothing_to_trim(named);
    let plain = "```\n"@ + s + "\n```"@;
    assert(plain =~= "```"@ + inner);
    assert(plain[0] == '`' && plain.last() == '`');
    text::lemma_nothing_to_trim(plain);
    assert(!text::has_prefix(plain, "```json"@)) by {
        if text::has_prefix(plain, "```json"@) {
            assert(plain.take(7)[3] == 'j');
            assert(plain[3] == '\n');
        }
    }
    text::law_all_copies_come_off("```json"@, plain);
}

proof fn lemma_no_fence(s: Seq<char>)
    requires
        s.len() > 0,
        s[0] != '`',
        s.last() != '`',
    ensures
        !text::has_prefix(s, "```json"@),
        !text::has_prefix(s, "```"@),
        !text::has_suffix(s, "```"@),
{
    reveal_strlit("```json");
    reveal_strlit("```");
    if text::has_prefix(s, "```json"@) {
        assert(s.take(7)[0] == '`');
    }
    if text::has_prefix(s, "```"@) {
        assert(s.take(3)[0] == '`');
    }
    if text::has_suffix(s, "```"@) {
        assert(s.skip(s.len() - 3)[2] == '`');
    }
}

/// Of the core memories, all that say something are kept, in their order.
pub proof fn law_blank_memories_are_dropped(memories: Seq<Seq<char>>)
    ensures
        not_blank(memories) == memories.filter(|m: Seq<char>| text::trim(m).len() > 0),
    decreases memories.len(),
{
    reveal(Seq::filter);
    if memories.len() > 0 {
        law_blank_memories_are_dropped(memories.drop_last());
    }
}

/// Patterns go to the knowledge graph where there is one, then the core memories
/// are stored, then the stale entries are forgotten; each as it was found.
pub proof fn law_dreams_are_acted_on_in_order(d: DreamView, i: int)
    requires
        0 <= i,
    ensures
        ({
            let cores = not_blank(d.core_memories);
            let all = actions_for(d, true);
            let p = d.patterns.len() as int;
            let c = cores.len() as int;
            &&& all.len() == p + c + d.stale_entry_keys.len()
            &&& actions_for(d, false) == all.skip(p)
            &&& i < p ==> all[i] == ActionView::StorePattern(d.patterns[i])
            &&& i < c ==> all[p + i] == ActionView::StoreCore(cores[i])
            &&& i < d.stale_entry_keys.len() ==> all[p + c + i] == ActionView::Forget(
                d.stale_entry_keys[i],
            )
        }),
        CORE_KEY_PREFIX@ == "dream_core_"@,
        MAX_ENTRIES == 200,
{
    let all = actions_for(d, true);
    assert(actions_for(d, false) =~= all.skip(d.patterns.len() as int));
}

/// A core memory is stored under a key of its own: the prefix of dreams and a
/// random identifier.
pub proof fn law_core_memories_have_random_keys(key: String, content: String)
    requires
        is_well_keyed(DreamAction::StoreCore { key, content }),
    ensures
        text::has_prefix(key@, "dream_core_"@),
        key@.len() == 47,
        ids::is_drawn(key@.skip(11)),
{
    reveal_strlit("dream_core_");
    assert("dream_core_"@.len() == 11);
}

} // verus!
