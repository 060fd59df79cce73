//! Procedures: tool steps that together did a task.

use crate::text;
use vstd::prelude::*;

verus! {

/// A single tool invocation captured from a conversation trace.
#[derive(Debug, Clone)]
pub struct ToolStep {
    pub tool_name: String,
    pub description: String,
    pub args_summary: String,
}

/// A named sequence of tool steps that together accomplish a task.
#[derive(Debug, Clone)]
pub struct Procedure {
    pub title: String,
    pub steps: Vec<ToolStep>,
}

/// What a step says.
#[verifier::ext_equal]
pub struct StepView {
    pub tool_name: Seq<char>,
    pub description: Seq<char>,
    pub args_summary: Seq<char>,
}

impl View for ToolStep {
    type V = StepView;

    open spec fn view(&self) -> StepView {
        StepView {
            tool_name: self.tool_name@,
            description: self.description@,
            args_summary: self.args_summary@,
        }
    }
}

/// What steps say.
pub open spec fn step_views(steps: Seq<ToolStep>) -> Seq<StepView> {
    steps.map_values(|s: ToolStep| s@)
}

/// The line of the step numbered `n`.
pub open spec fn step_line(n: nat, s: StepView) -> Seq<char> {
    text::decimal(n) + ". **"@ + s.tool_name + "**: "@ + s.description + " (args: "@
        + s.args_summary + ")\n"@
}

/// The lines of the steps, numbered from one.
pub open spec fn step_lines(steps: Seq<StepView>) -> Seq<char>
    decreases steps.len(),
{
    if steps.len() == 0 {
        Seq::<char>::empty()
    } else {
        step_lines(steps.drop_last()) + step_line(steps.len(), steps.last())
    }
}

/// A procedure as Markdown: its title, then its steps as a numbered list.
pub open spec fn markdown(title: Seq<char>, steps: Seq<StepView>) -> Seq<char> {
    "## "@ + title + "\n\n"@ + step_lines(steps)
}

impl Procedure {
    /// Render the procedure as a Markdown numbered list.
    pub fn as_markdown(&self) -> (r: String)
        ensures
            r@ == markdown(self.title@, step_views(self.steps@)),
    {
        let ghost all = step_views(self.steps@);
        let mut out = text::cat3("## ", self.title.as_str(), "\n\n");
        let ghost head = out@;
        proof {
            assert(all.take(0) =~= Seq::<StepView>::empty());
            assert(out@ =~= head + step_lines(all.take(0)));
        }
        for i in 0..self.steps.len()
            invariant
                all == step_views(self.steps@),
                out@ == head + step_lines(all.take(i as int)),
        {
            let step = &self.steps[i];
            let number = text::decimal_of((i + 1) as u64);
            let mut line = text::cat3(number.as_str(), ". **", step.tool_name.as_str());
            line.append("**: ");
            line.append(step.description.as_str());
            line.append(" (args: ");
            line.append(step.args_summary.as_str());
            line.append(")\n");
            let ghost before = out@;
            out.append(line.as_str());
            proof {
                let upto = all.take(i + 1);
                assert(upto.drop_last() =~= all.take(i as int));
                assert(upto.last() == step@);
                assert(line@ == step_line((i + 1) as nat, step@));
                assert(out@ =~= head + step_lines(upto));
            }
        }
        proof {
            assert(all.take(all.len() as int) =~= all);
        }
        out
    }
}

fn copied_steps(steps: &[ToolStep]) -> (r: Vec<ToolStep>)
    ensures
        step_views(r@) == step_views(steps@),
{
    let mut r: Vec<ToolStep> = Vec::new();
    for i in 0..steps.len()
        invariant
            step_views(r@) == step_views(steps@).take(i as int),
    {
        let s = &steps[i];
        let ghost before = step_views(r@);
        r.push(
            ToolStep {
                tool_name: s.tool_name.clone(),
                description: s.description.clone(),
                args_summary: s.args_summary.clone(),
            },
        );
        proof {
            assert(step_views(r@) =~= before.push(s@));
            assert(step_views(steps@).take(i + 1) =~= before.push(s@));
        }
    }
    proof {
        assert(step_views(steps@).take(steps@.len() as int) =~= step_views(steps@));
    }
    r
}

/// Extract a `Procedure` from a task description and a list of tool steps.
///
/// Returns steps only when there are 2 or more; otherwise the procedure has an
/// empty step list (trivial sequences are not worth storing).
pub fn extract_procedure(task_description: &str, steps: &[ToolStep]) -> (r: Procedure)
    ensures
        r.title@ == task_description@,
        step_views(r.steps@) == if steps@.len() >= 2 {
            step_views(steps@)
        } else {
            Seq::<StepView>::empty()
        },
{
    let kept = if steps.len() >= 2 {
        copied_steps(steps)
    } else {
        let none: Vec<ToolStep> = Vec::new();
        proof {
            assert(step_views(none@) =~= Seq::<StepView>::empty());
        }
        none
    };
    Procedure { title: task_description.to_string(), steps: kept }
}

/// Every step stands in the Markdown, under its number.
pub proof fn law_every_step_is_shown(title: Seq<char>, steps: Seq<StepView>, i: int)
    requires
        0 <= i < steps.len(),
    ensures
        text::contains(markdown(title, steps), step_line((i + 1) as nat, steps[i])),
{
    lemma_step_is_listed(steps, i);
    let head = "## "@ + title + "\n\n"@;
    text::lemma_contains_within(
        head,
        step_lines(steps),
        Seq::<char>::empty(),
        step_line((i + 1) as nat, steps[i]),
    );
    assert(head + step_lines(steps) + Seq::<char>::empty() =~= markdown(title, steps));
}

proof fn lemma_step_is_listed(steps: Seq<StepView>, i: int)
    requires
        0 <= i < steps.len(),
    ensures
        text::contains(step_lines(steps), step_line((i + 1) as nat, steps[i])),
    decreases steps.len(),
{
    let line = step_line((i + 1) as nat, steps[i]);
    let rest = step_lines(steps.drop_last());
    if i == steps.len() - 1 {
        text::lemma_contains_self(line);
        text::lemma_contains_within(rest, line, Seq::<char>::empty(), line);
        assert(rest + line + Seq::<char>::empty() =~= step_lines(steps));
    } else {
        lemma_step_is_listed(steps.drop_last(), i);
        let last = step_line(steps.len(), steps.last());
        text::lemma_contains_within(Seq::<char>::empty(), rest, last, line);
        assert(Seq::<char>::empty() + rest + last =~= step_lines(steps));
    }
}

/// The Markdown of a procedure begins with its title as a heading; every further
/// step adds a line at the end, with the next number.
pub proof fn law_steps_are_numbered_in_order(title: Seq<char>, steps: Seq<StepView>, s: StepView)
    ensures
        markdown(title, Seq::<StepView>::empty()) == "## "@ + title + "\n\n"@,
        markdown(title, steps.push(s)) == markdown(title, steps) + step_line(
            (steps.len() + 1) as nat,
            s,
        ),
{
    assert("## "@ + title + "\n\n"@ + Seq::<char>::empty() =~= "## "@ + title + "\n\n"@);
    assert(steps.push(s).drop_last() =~= steps);
    assert(markdown(title, steps.push(s)) =~= markdown(title, steps) + step_line(
        (steps.len() + 1) as nat,
        s,
    ));
}

/// The line of a step names the tool behind the number, and ends with what the
/// step was for and its arguments.
pub proof fn law_step_lines_tell_the_step(n: nat, s: StepView)
    ensures
        text::has_prefix(step_line(n, s), text::decimal(n) + ". **"@ + s.tool_name + "**: "@),
        text::has_suffix(
            step_line(n, s),
            s.description + " (args: "@ + s.args_summary + ")\n"@,
        ),
        step_line(n, s).len() == text::decimal(n).len() + s.tool_name.len() + s.description.len()
            + s.args_summary.len() + 18,
{
    reveal_strlit(". **");
    reveal_strlit("**: ");
    reveal_strlit(" (args: ");
    reveal_strlit(")\n");
    let a = text::decimal(n) + ". **"@ + s.tool_name + "**: "@;
    let b = s.description + " (args: "@ + s.args_summary + ")\n"@;
    assert(step_line(n, s) =~= a + b);
    text::lemma_prefix(a, b);
    text::lemma_suffix(a, b);
}

} // verus!
