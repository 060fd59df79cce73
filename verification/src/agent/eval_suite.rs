//! Behavioral task suite for agent core promotion gating.
//!
//! A fixed set of tasks with scripted model responses; each has an oracle that
//! says whether the agent's final text is a success. Running the agent is left
//! to the caller.

use crate::providers::traits::{ChatResponse, ToolCall};
use crate::sorting;
use crate::text;
use vstd::prelude::*;

verus! {

/// Given the text that the agent returned, did it succeed?
#[derive(Debug, Clone, Copy)]
pub enum Oracle {
    /// The text holds these words.
    Contains(&'static str),
    /// The text holds a decimal digit.
    HasDigit,
}

#[derive(Debug, Clone)]
pub struct EvalTask {
    pub id: &'static str,
    pub category: Category,
    pub user_prompt: &'static str,
    /// Scripted provider responses, in order. The runner will feed them back
    /// turn-by-turn.
    pub scripted_responses: Vec<ChatResponse>,
    /// Oracle: given the returned text, did the agent succeed?
    pub succeeded_if: Oracle,
    /// Maximum iterations allowed.
    pub max_iterations: usize,
}

#[derive(Debug, Clone, Copy, PartialEq, Eq, Structural)]
pub enum Category {
    DiligenceAfterFailure,
    MultiStepChaining,
    WrongToolRecovery,
    LongContextRetention,
}

#[derive(Debug, Clone)]
pub struct EvalResult {
    pub task_id: &'static str,
    pub category: Category,
    pub core: String,
    pub passed: bool,
    pub iterations_used: usize,
    pub tokens_used: u64,
}

#[derive(Debug, Clone)]
pub struct EvalSummary {
    pub results: Vec<EvalResult>,
}

/// What an oracle looks for.
#[verifier::ext_equal]
pub enum OracleView {
    Contains(Seq<char>),
    HasDigit,
}

impl View for Oracle {
    type V = OracleView;

    open spec fn view(&self) -> OracleView {
        match self {
            Oracle::Contains(words) => OracleView::Contains(words@),
            Oracle::HasDigit => OracleView::HasDigit,
        }
    }
}

/// The oracle accepts the text.
pub open spec fn accepts(oracle: OracleView, final_text: Seq<char>) -> bool {
    match oracle {
        OracleView::Contains(words) => text::contains(final_text, words),
        OracleView::HasDigit => exists|i: int|
            0 <= i < final_text.len() && '0' <= #[trigger] final_text[i] <= '9',
    }
}

impl Oracle {
    /// Whether the oracle accepts the text. The number of iterations does not
    /// matter to any oracle yet.
    pub fn holds(&self, final_text: &str, _iterations: usize) -> (r: bool)
        ensures
            r == accepts(self@, final_text@),
    {
        match self {
            Oracle::Contains(words) => text::contains_text(final_text, words),
            Oracle::HasDigit => {
                let cs = text::chars_of(final_text);
                for i in 0..cs.len()
                    invariant
                        cs@ == final_text@,
                        forall|j: int| 0 <= j < i ==> !('0' <= #[trigger] cs@[j] <= '9'),
                        self@ is HasDigit,
                {
                    if '0' <= cs[i] && cs[i] <= '9' {
                        proof {
                            assert('0' <= final_text@[i as int] <= '9');
                        }
                        return true;
                    }
                }
                false
            },
        }
    }
}

/// A share of tasks that passed: `passed` of `total`. Where there are none the
/// rate is zero.
#[derive(Debug, Clone, Copy, PartialEq, Eq, Structural)]
pub struct PassRate {
    pub passed: usize,
    pub total: usize,
}

/// The results of the given core.
pub open spec fn for_core(results: Seq<EvalResult>, core: Seq<char>) -> Seq<EvalResult>
    decreases results.len(),
{
    if results.len() == 0 {
        results
    } else {
        let before = for_core(results.drop_last(), core);
        if results.last().core@ == core {
            before.push(results.last())
        } else {
            before
        }
    }
}

/// How many of the results passed.
pub open spec fn count_passed(results: Seq<EvalResult>) -> nat
    decreases results.len(),
{
    if results.len() == 0 {
        0
    } else {
        count_passed(results.drop_last()) + if results.last().passed {
            1nat
        } else {
            0nat
        }
    }
}

/// The tokens that each result used.
pub open spec fn tokens_of(results: Seq<EvalResult>) -> Seq<u64> {
    results.map_values(|r: EvalResult| r.tokens_used)
}

/// `m` stands in the middle of the tokens when they are sorted; of two middle
/// ones it is the larger. Zero where there are none.
pub open spec fn is_median(tokens: Seq<u64>, m: u64) -> bool {
    if tokens.len() == 0 {
        m == 0
    } else {
        exists|places: Seq<usize>| #[trigger]
            sorting::is_stable_order(tokens, places) && m == tokens[places[(tokens.len()
                / 2) as int] as int]
    }
}

impl EvalSummary {
    /// The share of the tasks of a core that passed.
    pub fn pass_rate(&self, core: &str) -> (r: PassRate)
        ensures
            r.total == for_core(self.results@, core@).len(),
            r.passed == count_passed(for_core(self.results@, core@)),
            r.passed <= r.total,
    {
        let ghost all = self.results@;
        let mut passed: usize = 0;
        let mut total: usize = 0;
        proof {
            assert(all.take(0) =~= Seq::<EvalResult>::empty());
        }
        for i in 0..self.results.len()
            invariant
                all == self.results@,
                total == for_core(all.take(i as int), core@).len(),
                passed == count_passed(for_core(all.take(i as int), core@)),
                passed <= total <= i,
        {
            proof {
                assert(all.take(i + 1).drop_last() =~= all.take(i as int));
                assert(all.take(i + 1).last() == all[i as int]);
            }
            if text::same_text(self.results[i].core.as_str(), core) {
                let ghost before = for_core(all.take(i as int), core@);
                proof {
                    assert(before.push(all[i as int]).drop_last() =~= before);
                }
                total = total + 1;
                if self.results[i].passed {
                    passed = passed + 1;
                }
            }
        }
        proof {
            assert(all.take(all.len() as int) =~= all);
        }
        PassRate { passed, total }
    }

    /// The median of the tokens that the tasks of a core used.
    pub fn median_tokens(&self, core: &str) -> (r: u64)
        ensures
            is_median(tokens_of(for_core(self.results@, core@)), r),
    {
        let ghost all = self.results@;
        let mut tokens: Vec<u64> = Vec::new();
        proof {
            assert(all.take(0) =~= Seq::<EvalResult>::empty());
            assert(tokens@ =~= tokens_of(for_core(all.take(0), core@)));
        }
        for i in 0..self.results.len()
            invariant
                all == self.results@,
                tokens@ == tokens_of(for_core(all.take(i as int), core@)),
        {
            proof {
                assert(all.take(i + 1).drop_last() =~= all.take(i as int));
                assert(all.take(i + 1).last() == all[i as int]);
            }
            let ghost before = for_core(all.take(i as int), core@);
            if text::same_text(self.results[i].core.as_str(), core) {
                tokens.push(self.results[i].tokens_used);
                proof {
                    assert(tokens@ =~= tokens_of(before.push(all[i as int])));
                }
            }
        }
        proof {
            assert(all.take(all.len() as int) =~= all);
        }
        if tokens.len() == 0 {
            return 0;
        }
        let places = sorting::order_of(&tokens);
        let middle: usize = tokens.len() / 2;
        proof {
            assert(places@[middle as int] < tokens@.len());
            assert(sorting::is_stable_order(tokens@, places@));
        }
        tokens[places[middle]]
    }
}

/// The result of a task whose agent returned the given text, or failed.
pub fn result_of(task: &EvalTask, core: &str, final_text: Option<&str>) -> (r: EvalResult)
    ensures
        r.task_id == task.id,
        r.category == task.category,
        r.core@ == core@,
        r.passed == match final_text {
            Some(t) => accepts(task.succeeded_if@, t@) && t@.len() > 0,
            None => false,
        },
        r.iterations_used == 0,
        r.tokens_used == 0,
{
    let passed = match final_text {
        Some(t) => task.succeeded_if.holds(t, 0) && t.unicode_len() > 0,
        None => false,
    };
    EvalResult {
        task_id: task.id,
        category: task.category,
        core: core.to_string(),
        passed,
        iterations_used: 0,
        tokens_used: 0,
    }
}

// ---------------------------------------------------------------------------
// The canonical tasks
// ---------------------------------------------------------------------------

/// What a response says.
#[verifier::ext_equal]
pub struct ResponseView {
    pub text: Option<Seq<char>>,
    /// ID, name and arguments of each tool call.
    pub tool_calls: Seq<(Seq<char>, Seq<char>, Seq<char>)>,
    pub has_usage: bool,
    pub reasoning_content: Option<Seq<char>>,
}

/// What a response says.
pub open spec fn response_view(r: ChatResponse) -> ResponseView {
    ResponseView {
        text: text::view_opt_string(r.text),
        tool_calls: r.tool_calls@.map_values(|c: ToolCall| (c.id@, c.name@, c.arguments@)),
        has_usage: r.usage is Some,
        reasoning_content: text::view_opt_string(r.reasoning_content),
    }
}

/// What a task says.
#[verifier::ext_equal]
pub struct TaskView {
    pub id: Seq<char>,
    pub category: Category,
    pub user_prompt: Seq<char>,
    pub scripted_responses: Seq<ResponseView>,
    pub succeeded_if: OracleView,
    pub max_iterations: usize,
}

impl View for EvalTask {
    type V = TaskView;

    open spec fn view(&self) -> TaskView {
        TaskView {
            id: self.id@,
            category: self.category,
            user_prompt: self.user_prompt@,
            scripted_responses: self.scripted_responses@.map_values(
                |r: ChatResponse| response_view(r),
            ),
            succeeded_if: self.succeeded_if@,
            max_iterations: self.max_iterations,
        }
    }
}

/// A response that is only text.
pub open spec fn said(t: Seq<char>) -> ResponseView {
    ResponseView {
        text: Some(t),
        tool_calls: Seq::<(Seq<char>, Seq<char>, Seq<char>)>::empty(),
        has_usage: false,
        reasoning_content: None,
    }
}

/// A response that only calls a tool.
pub open spec fn called(id: Seq<char>, name: Seq<char>, arguments: Seq<char>) -> ResponseView {
    ResponseView {
        text: None,
        tool_calls: seq![(id, name, arguments)],
        has_usage: false,
        reasoning_content: None,
    }
}

fn say(t: &str) -> (r: ChatResponse)
    ensures
        response_view(r) == said(t@),
{
    let r = ChatResponse {
        text: Some(t.to_string()),
        tool_calls: Vec::new(),
        usage: None,
        reasoning_content: None,
    };
    proof {
        assert(response_view(r).tool_calls =~= said(t@).tool_calls);
    }
    r
}

fn call(id: &str, name: &str, arguments: &str) -> (r: ChatResponse)
    ensures
        response_view(r) == called(id@, name@, arguments@),
{
    let mut tool_calls: Vec<ToolCall> = Vec::new();
    tool_calls.push(
        ToolCall { id: id.to_string(), name: name.to_string(), arguments: arguments.to_string() },
    );
    let r = ChatResponse { text: None, tool_calls, usage: None, reasoning_content: None };
    proof {
        assert(response_view(r).tool_calls =~= called(id@, name@, arguments@).tool_calls);
    }
    r
}

/// Diligence after tool failure: the first path does not exist, the second one does.
pub open spec fn diligence_task() -> TaskView {
    TaskView {
        id: "diligence-01-retry-on-enoent"@,
        category: Category::DiligenceAfterFailure,
        user_prompt: "Read the config file"@,
        scripted_responses: seq![
            called("1"@, "shell"@, "{\"cmd\":\"cat /nonexistent.toml\"}"@),
            called("2"@, "shell"@, "{\"cmd\":\"cat ./config.toml\"}"@),
            said("Found config: ..."@),
        ],
        succeeded_if: OracleView::Contains("Found config"@),
        max_iterations: 5,
    }
}

/// Multi-step chaining: four tool calls, then a summary.
pub open spec fn multi_step_task() -> TaskView {
    TaskView {
        id: "multi-step-01-four-call-chain"@,
        category: Category::MultiStepChaining,
        user_prompt: "List files, grep for TODO in them, count the matches, then report the result."@,
        scripted_responses: seq![
            called("ms1"@, "shell"@, "{\"cmd\":\"ls .\"}"@),
            called("ms2"@, "shell"@, "{\"cmd\":\"grep -r TODO .\"}"@),
            called("ms3"@, "shell"@, "{\"cmd\":\"grep -r TODO . | wc -l\"}"@),
            called("ms4"@, "shell"@, "{\"cmd\":\"echo 'TODO count: 42'\"}"@),
            said("Found 42 TODO items across the files."@),
        ],
        succeeded_if: OracleView::HasDigit,
        max_iterations: 10,
    }
}

/// Wrong-tool recovery: the shell finds nothing, recall does.
pub open spec fn wrong_tool_task() -> TaskView {
    TaskView {
        id: "wrong-tool-01-shell-instead-of-recall"@,
        category: Category::WrongToolRecovery,
        user_prompt: "What did I remember about the deploy region?"@,
        scripted_responses: seq![
            called("wt1"@, "shell"@, "{\"cmd\":\"cat ~/.memory/deploy_region.md\"}"@),
            called("wt2"@, "recall"@, "{\"query\":\"deploy region\"}"@),
            said("According to your memory, the deploy region is us-east-1."@),
        ],
        succeeded_if: OracleView::Contains("us-east-1"@),
        max_iterations: 5,
    }
}

/// Long-context retention: a fact from the first turn, asked for in the last.
pub open spec fn long_context_task() -> TaskView {
    TaskView {
        id: "long-ctx-01-fact-at-turn-zero"@,
        category: Category::LongContextRetention,
        user_prompt: "The color is teal. Remember that."@,
        scripted_responses: seq![
            said("Got it, I'll remember the color is teal."@),
            said("Understood."@),
            said("OK."@),
            said("Sure."@),
            said("Done."@),
            said("Noted."@),
            said("Acknowledged."@),
            said("Alright."@),
            said("I see."@),
            said("Confirmed."@),
            said("Very well."@),
            said("Certainly."@),
            said("Of course."@),
            said("Will do."@),
            said("Right."@),
            said("Absolutely."@),
            said("The color you set at the start is teal."@),
        ],
        succeeded_if: OracleView::Contains("teal"@),
        max_iterations: 20,
    }
}

fn make_diligence_task() -> (r: EvalTask)
    ensures
        r@ == diligence_task(),
{
    let mut responses: Vec<ChatResponse> = Vec::new();
    responses.push(call("1", "shell", "{\"cmd\":\"cat /nonexistent.toml\"}"));
    responses.push(call("2", "shell", "{\"cmd\":\"cat ./config.toml\"}"));
    responses.push(say("Found config: ..."));
    let r = EvalTask {
        id: "diligence-01-retry-on-enoent",
        category: Category::DiligenceAfterFailure,
        user_prompt: "Read the config file",
        scripted_responses: responses,
        succeeded_if: Oracle::Contains("Found config"),
        max_iterations: 5,
    };
    proof {
        assert(r@.scripted_responses =~= diligence_task().scripted_responses);
    }
    r
}

fn make_multi_step_task() -> (r: EvalTask)
    ensures
        r@ == multi_step_task(),
{
    let mut responses: Vec<ChatResponse> = Vec::new();
    responses.push(call("ms1", "shell", "{\"cmd\":\"ls .\"}"));
    responses.push(call("ms2", "shell", "{\"cmd\":\"grep -r TODO .\"}"));
    responses.push(call("ms3", "shell", "{\"cmd\":\"grep -r TODO . | wc -l\"}"));
    responses.push(call("ms4", "shell", "{\"cmd\":\"echo 'TODO count: 42'\"}"));
    responses.push(say("Found 42 TODO items across the files."));
    let r = EvalTask {
        id: "multi-step-01-four-call-chain",
        category: Category::MultiStepChaining,
        user_prompt: "List files, grep for TODO in them, count the matches, then report the result.",
        scripted_responses: responses,
        succeeded_if: Oracle::HasDigit,
        max_iterations: 10,
    };
    proof {
        assert(r@.scripted_responses =~= multi_step_task().scripted_responses);
    }
    r
}

fn make_wrong_tool_task() -> (r: EvalTask)
    ensures
        r@ == wrong_tool_task(),
{
    let mut responses: Vec<ChatResponse> = Vec::new();
    responses.push(call("wt1", "shell", "{\"cmd\":\"cat ~/.memory/deploy_region.md\"}"));
    responses.push(call("wt2", "recall", "{\"query\":\"deploy region\"}"));
    responses.push(say("According to your memory, the deploy region is us-east-1."));
    let r = EvalTask {
        id: "wrong-tool-01-shell-instead-of-recall",
        category: Category::WrongToolRecovery,
        user_prompt: "What did I remember about the deploy region?",
        scripted_responses: responses,
        succeeded_if: Oracle::Contains("us-east-1"),
        max_iterations: 5,
    };
    proof {
        assert(r@.scripted_responses =~= wrong_tool_task().scripted_responses);
    }
    r
}

fn make_long_context_task() -> (r: EvalTask)
    ensures
        r@ == long_context_task(),
{
    let mut responses: Vec<ChatResponse> = Vec::new();
    responses.push(say("Got it, I'll remember the color is teal."));
    responses.push(say("Understood."));
    responses.push(say("OK."));
    responses.push(say("Sure."));
    responses.push(say("Done."));
    responses.push(say("Noted."));
    responses.push(say("Acknowledged."));
    responses.push(say("Alright."));
    responses.push(say("I see."));
    responses.push(say("Confirmed."));
    responses.push(say("Very well."));
    responses.push(say("Certainly."));
    responses.push(say("Of course."));
    responses.push(say("Will do."));
    responses.push(say("Right."));
    responses.push(say("Absolutely."));
    responses.push(say("The color you set at the start is teal."));
    let r = EvalTask {
        id: "long-ctx-01-fact-at-turn-zero",
        category: Category::LongContextRetention,
        user_prompt: "The color is teal. Remember that.",
        scripted_responses: responses,
        succeeded_if: Oracle::Contains("teal"),
        max_iterations: 20,
    };
    proof {
        assert(r@.scripted_responses =~= long_context_task().scripted_responses);
    }
    r
}

/// The canonical task list.
pub open spec fn canonical() -> Seq<TaskView> {
    seq![diligence_task(), multi_step_task(), wrong_tool_task(), long_context_task()]
}

/// The canonical task list. Extend freely — each task must have an oracle
/// and be deterministic under scripted responses.
pub fn canonical_tasks() -> (r: Vec<EvalTask>)
    ensures
        r@.map_values(|t: EvalTask| t@) == canonical(),
{
    let mut r: Vec<EvalTask> = Vec::new();
    r.push(make_diligence_task());
    r.push(make_multi_step_task());
    r.push(make_wrong_tool_task());
    r.push(make_long_context_task());
    proof {
        assert(r@.map_values(|t: EvalTask| t@) =~= canonical());
    }
    r
}

/// Every task ends with a text, and its oracle accepts that text: an agent that
/// follows the script passes. No script is longer than the task allows.
pub proof fn law_every_task_can_be_passed(i: int)
    requires
        0 <= i < canonical().len(),
    ensures
        ({
            let task = canonical()[i];
            let last = task.scripted_responses.last();
            &&& last.text is Some
            &&& accepts(task.succeeded_if, last.text->0)
            &&& task.scripted_responses.len() <= task.max_iterations
        }),
{
    if i == 0 {
        reveal_strlit("Found config: ...");
        reveal_strlit("Found config");
        lemma_found("Found config: ..."@, "Found config"@, 0);
    } else if i == 1 {
        reveal_strlit("Found 42 TODO items across the files.");
        assert("Found 42 TODO items across the files."@[6] == '4');
    } else if i == 2 {
        reveal_strlit("According to your memory, the deploy region is us-east-1.");
        reveal_strlit("us-east-1");
        lemma_found(
            "According to your memory, the deploy region is us-east-1."@,
            "us-east-1"@,
            47,
        );
    } else {
        reveal_strlit("The color you set at the start is teal.");
        reveal_strlit("teal");
        lemma_found("The color you set at the start is teal."@, "teal"@, 34);
    }
}

proof fn lemma_found(hay: Seq<char>, needle: Seq<char>, at: int)
    requires
        0 <= at,
        at + needle.len() <= hay.len(),
        forall|k: int| 0 <= k < needle.len() ==> hay[at + k] == #[trigger] needle[k],
    ensures
        text::contains(hay, needle),
{
    assert(hay.subrange(at, at + needle.len()) =~= needle);
    assert(text::occurs_at(hay, needle, at));
}

/// Every category has a task.
pub proof fn law_every_category_has_a_task(category: Category)
    ensures
        exists|i: int| 0 <= i < canonical().len() && (#[trigger] canonical()[i]).category == category,
{
    match category {
        Category::DiligenceAfterFailure => {
            assert(canonical()[0].category == category);
        },
        Category::MultiStepChaining => {
            assert(canonical()[1].category == category);
        },
        Category::WrongToolRecovery => {
            assert(canonical()[2].category == category);
        },
        Category::LongContextRetention => {
            assert(canonical()[3].category == category);
        },
    }
}

/// The results of a core are all that name it, in their order; those that passed
/// are counted, each once.
pub proof fn law_results_are_picked_and_counted(results: Seq<EvalResult>, core: Seq<char>)
    ensures
        for_core(results, core) == results.filter(|r: EvalResult| r.core@ == core),
        count_passed(results) == results.filter(|r: EvalResult| r.passed).len(),
        tokens_of(results).len() == results.len(),
        forall|i: int|
            0 <= i < results.len() ==> tokens_of(results)[i] == (#[trigger] results[i]).tokens_used,
    decreases results.len(),
{
    reveal(Seq::filter);
    if results.len() > 0 {
        law_results_are_picked_and_counted(results.drop_last(), core);
    }
}

/// The places of those tokens that are fewer than `m`, and of those that are more.
pub open spec fn below(tokens: Seq<u64>, m: u64) -> Set<usize> {
    Set::new(|i: usize| i < tokens.len() && tokens[i as int] < m)
}

/// The places of those tokens that are more than `m`.
pub open spec fn above(tokens: Seq<u64>, m: u64) -> Set<usize> {
    Set::new(|i: usize| i < tokens.len() && tokens[i as int] > m)
}

/// The median is one of the numbers. No more than half of them are smaller, and
/// fewer than half of them larger; of two in the middle it is thus the larger.
pub proof fn law_the_median_stands_in_the_middle(tokens: Seq<u64>, m: u64)
    requires
        is_median(tokens, m),
    ensures
        tokens.len() == 0 ==> m == 0,
        tokens.len() > 0 ==> {
            &&& tokens.contains(m)
            &&& below(tokens, m).len() <= tokens.len() / 2
            &&& above(tokens, m).len() < tokens.len() - tokens.len() / 2
        },
{
    if tokens.len() > 0 {
        let n = tokens.len() as int;
        let h = n / 2;
        let places = choose|places: Seq<usize>| #[trigger]
            sorting::is_stable_order(tokens, places) && m == tokens[places[h] as int];
        assert(tokens[places[h] as int] == m);
        let low = places.take(h);
        let high = places.skip(h + 1);
        assert forall|i: usize| below(tokens, m).contains(i) implies low.to_set().contains(i) by {
            sorting::lemma_arrangement_full(places, n, i);
            let k = choose|k: int| 0 <= k < places.len() && places[k] == i;
            if k > h {
                sorting::law_sorted_numbers_rise(tokens, places, h, k);
            }
            assert(k < h);
            assert(low[k] == i);
        }
        assert forall|i: usize| above(tokens, m).contains(i) implies high.to_set().contains(i) by {
            sorting::lemma_arrangement_full(places, n, i);
            let k = choose|k: int| 0 <= k < places.len() && places[k] == i;
            if k < h {
                sorting::law_sorted_numbers_rise(tokens, places, k, h);
            }
            assert(k > h);
            assert(high[k - h - 1] == i);
        }
        low.lemma_cardinality_of_set();
        high.lemma_cardinality_of_set();
        vstd::set_lib::lemma_len_subset(below(tokens, m), low.to_set());
        vstd::set_lib::lemma_len_subset(above(tokens, m), high.to_set());
    }
}

/// An oracle that looks for words accepts every text that holds them, and one that
/// looks for a digit every text that holds one; no other.
pub proof fn law_oracles_find_what_they_look_for(
    before: Seq<char>,
    words: Seq<char>,
    digit: char,
    after: Seq<char>,
    other: Seq<char>,
)
    ensures
        accepts(OracleView::Contains(words), before + words + after),
        accepts(OracleView::Contains(words), other) ==> exists|a: Seq<char>, b: Seq<char>|
            #[trigger] (a + words + b) == other,
        '0' <= digit <= '9' ==> accepts(OracleView::HasDigit, before + seq![digit] + after),
        (forall|i: int| 0 <= i < other.len() ==> !('0' <= #[trigger] other[i] <= '9')) ==> !accepts(
            OracleView::HasDigit,
            other,
        ),
{
    text::law_found_texts_stand_within(before + words + after, words);
    text::law_found_texts_stand_within(other, words);
    assert((before + seq![digit] + after)[before.len() as int] == digit);
}

/// The IDs of the tasks tell them apart.
pub proof fn law_tasks_have_ids_of_their_own(i: int, j: int)
    requires
        0 <= i < j < canonical().len(),
    ensures
        canonical().len() == 4,
        canonical()[i].id != canonical()[j].id,
        canonical()[i].category != canonical()[j].category,
{
    reveal_strlit("diligence-01-retry-on-enoent");
    reveal_strlit("multi-step-01-four-call-chain");
    reveal_strlit("wrong-tool-01-shell-instead-of-recall");
    reveal_strlit("long-ctx-01-fact-at-turn-zero");
    assert("diligence-01-retry-on-enoent"@[0] == 'd');
    assert("multi-step-01-four-call-chain"@[0] == 'm');
    assert("wrong-tool-01-shell-instead-of-recall"@[0] == 'w');
    assert("long-ctx-01-fact-at-turn-zero"@[0] == 'l');
}

} // verus!
