//! LLM-driven skill refinement after successful use.

use crate::json;
use crate::json::{Json, JsonView};
use crate::text;
use vstd::prelude::*;

verus! {

/// What the prompt says before the name of the skill.
pub const PROMPT_BEFORE_SLUG: &'static str = r#"You are reviewing the skill definition for ""#;

/// What the prompt says before the definition of the skill.
pub const PROMPT_BEFORE_CONTENT: &'static str = r#"" after a successful execution.

## Current Skill Definition

```toml
"#;

/// What the prompt says before the trace.
pub const PROMPT_BEFORE_TRACE: &'static str = r#"
```

## Execution Trace

"#;

/// What the prompt says after the trace.
pub const PROMPT_AFTER_TRACE: &'static str = r#"

## Task

Based on the execution trace above, decide whether the skill definition should be improved.

Respond with a JSON object in this exact format:
{"improved_content": "..." or null, "reason": "..."}

- If the skill is adequate as-is, set `improved_content` to `null`.
- If you propose improvements, set `improved_content` to the full updated TOML content.
- Always provide a `reason` explaining your decision.
- Do not include any text outside the JSON object."#;

/// The prompt that asks for a review of a skill.
pub open spec fn refinement_prompt(
    slug: Seq<char>,
    current_content: Seq<char>,
    execution_trace: Seq<char>,
) -> Seq<char> {
    PROMPT_BEFORE_SLUG@ + slug + PROMPT_BEFORE_CONTENT@ + current_content + PROMPT_BEFORE_TRACE@
        + execution_trace + PROMPT_AFTER_TRACE@
}

/// Build a prompt for the LLM to review a skill definition against an execution trace.
pub fn build_refinement_prompt(slug: &str, current_content: &str, execution_trace: &str) -> (r:
    String)
    ensures
        r@ == refinement_prompt(slug@, current_content@, execution_trace@),
{
    let mut r = text::cat5(
        PROMPT_BEFORE_SLUG,
        slug,
        PROMPT_BEFORE_CONTENT,
        current_content,
        PROMPT_BEFORE_TRACE,
    );
    r.append(execution_trace);
    r.append(PROMPT_AFTER_TRACE);
    r
}

/// The prompt holds the name of the skill, its definition and the trace.
pub proof fn law_prompt_holds_skill_and_trace(
    slug: Seq<char>,
    current_content: Seq<char>,
    execution_trace: Seq<char>,
)
    ensures
        text::contains(refinement_prompt(slug, current_content, execution_trace), slug),
        text::contains(refinement_prompt(slug, current_content, execution_trace), current_content),
        text::contains(refinement_prompt(slug, current_content, execution_trace), execution_trace),
{
    let all = refinement_prompt(slug, current_content, execution_trace);
    let one = PROMPT_BEFORE_SLUG@;
    let two = PROMPT_BEFORE_CONTENT@;
    let three = PROMPT_BEFORE_TRACE@;
    let four = PROMPT_AFTER_TRACE@;
    text::lemma_contains_self(slug);
    text::lemma_contains_self(current_content);
    text::lemma_contains_self(execution_trace);
    let after = two + current_content + three + execution_trace + four;
    text::lemma_contains_within(one, slug, after, slug);
    assert(one + slug + after =~= all);
    let before = one + slug + two;
    let rest = three + execution_trace + four;
    text::lemma_contains_within(before, current_content, rest, current_content);
    assert(before + current_content + rest =~= all);
    let front = one + slug + two + current_content + three;
    text::lemma_contains_within(front, execution_trace, four, execution_trace);
    assert(front + execution_trace + four =~= all);
}

/// What stands between code fences, or the text itself where no fence closes.
/// A language identifier on the first line goes with the opening fence.
pub open spec fn without_fences(s: Seq<char>) -> Seq<char> {
    let trimmed = text::trim(s);
    match text::without_prefix(trimmed, "```"@) {
        Some(inner) => {
            let after_fence = match text::find_any(inner, "\n"@) {
                Some(i) => inner.skip(i + 1),
                None => inner,
            };
            match text::without_suffix(after_fence, "```"@) {
                Some(body) => text::trim(body),
                None => trimmed,
            }
        },
        None => trimmed,
    }
}

/// Strip surrounding markdown code fences (```...```) from a string.
fn strip_code_blocks(s: &str) -> (r: &str)
    ensures
        r@ == without_fences(s@),
{
    let trimmed = text::trimmed(s);
    match text::strip_prefix(trimmed, "```") {
        Some(inner) => {
            // Strip optional language identifier on first line.
            let cs = text::chars_of(inner);
            let n: usize = cs.len();
            let after_fence = match text::find_any_of(&cs, "\n") {
                Some(i) => {
                    let rest = text::slice(inner, i + 1, n);
                    proof {
                        assert(rest@ =~= inner@.skip(i + 1));
                    }
                    rest
                },
                None => inner,
            };
            match text::strip_suffix(after_fence, "```") {
                Some(body) => text::trimmed(body),
                None => trimmed,
            }
        },
        None => trimmed,
    }
}

/// The improvement and its reason in a parsed answer: both are texts, and the
/// improvement is not empty.
pub open spec fn improvement(answer: JsonView) -> Option<(Seq<char>, Seq<char>)> {
    match (answer.text_at("improved_content"@), answer.text_at("reason"@)) {
        (Some(content), Some(reason)) => if content.len() > 0 {
            Some((content, reason))
        } else {
            None
        },
        _ => None,
    }
}

/// The view of an improvement.
pub open spec fn view_pair(p: Option<(String, String)>) -> Option<(Seq<char>, Seq<char>)> {
    match p {
        Some((a, b)) => Some((a@, b@)),
        None => None,
    }
}

/// The improvement and its reason in a parsed answer.
pub fn read_improvement(answer: &Json) -> (r: Option<(String, String)>)
    ensures
        view_pair(r) == improvement(answer@),
{
    let reason = match answer.text_at("reason") {
        Some(reason) => reason,
        None => {
            return None;
        },
    };
    match answer.text_at("improved_content") {
        Some(content) => if content.unicode_len() > 0 {
            Some((content.to_string(), reason.to_string()))
        } else {
            None
        },
        None => None,
    }
}

/// Parse the LLM's refinement response.
/// Returns Some((improved_content, reason)) if improvement suggested, None otherwise.
pub fn parse_refinement_response(raw: &str) -> (r: Option<(String, String)>)
    ensures
        view_pair(r) == match json::json_parse(text::trim(without_fences(raw@))) {
            Some(answer) => improvement(answer),
            None => None,
        },
{
    // Strip markdown code blocks if present.
    let trimmed = text::trimmed(strip_code_blocks(raw));
    match json::parse(trimmed) {
        Some(answer) => read_improvement(&answer),
        None => None,
    }
}

/// The prompt quotes the name of the skill first, then holds its definition as
/// TOML, and then the trace.
pub proof fn law_prompt_puts_each_in_its_place(
    slug: Seq<char>,
    current_content: Seq<char>,
    execution_trace: Seq<char>,
)
    ensures
        text::has_prefix(
            refinement_prompt(slug, current_content, execution_trace),
            PROMPT_BEFORE_SLUG@ + slug + "\""@,
        ),
        text::contains(
            refinement_prompt(slug, current_content, execution_trace),
            "```toml\n"@ + current_content + "\n```"@,
        ),
        text::contains(
            refinement_prompt(slug, current_content, execution_trace),
            "## Execution Trace\n\n"@ + execution_trace + "\n\n## Task"@,
        ),
{
    let all = refinement_prompt(slug, current_content, execution_trace);
    let p1 = PROMPT_BEFORE_SLUG@ + slug;
    let c = PROMPT_BEFORE_CONTENT@;
    let t = PROMPT_BEFORE_TRACE@;
    let e = PROMPT_AFTER_TRACE@;
    lemma_parts_of_the_prompt();
    assert(all =~= (p1 + "\""@) + (c.skip(1) + current_content + t + execution_trace + e));
    text::lemma_prefix(p1 + "\""@, c.skip(1) + current_content + t + execution_trace + e);
    let n = c.len() - 8;
    assert(all =~= (p1 + c.take(n)) + ("```toml\n"@ + current_content + "\n```"@) + (t.skip(4)
        + execution_trace + e));
    text::law_found_texts_stand_within(all, "```toml\n"@ + current_content + "\n```"@);
    let k = t.len() - 20;
    assert(all =~= (p1 + c + current_content + t.take(k)) + ("## Execution Trace\n\n"@
        + execution_trace + "\n\n## Task"@) + e.skip(9));
    text::law_found_texts_stand_within(
        all,
        "## Execution Trace\n\n"@ + execution_trace + "\n\n## Task"@,
    );
}

proof fn lemma_parts_of_the_prompt()
    ensures
        PROMPT_BEFORE_CONTENT@.len() >= 9,
        PROMPT_BEFORE_CONTENT@ == "\""@ + PROMPT_BEFORE_CONTENT@.skip(1),
        PROMPT_BEFORE_CONTENT@ == PROMPT_BEFORE_CONTENT@.take(PROMPT_BEFORE_CONTENT@.len() - 8)
            + "```toml\n"@,
        PROMPT_BEFORE_TRACE@.len() >= 24,
        PROMPT_BEFORE_TRACE@ == "\n```"@ + PROMPT_BEFORE_TRACE@.skip(4),
        PROMPT_BEFORE_TRACE@ == PROMPT_BEFORE_TRACE@.take(PROMPT_BEFORE_TRACE@.len() - 20)
            + "## Execution Trace\n\n"@,
        PROMPT_AFTER_TRACE@.len() >= 9,
        PROMPT_AFTER_TRACE@ == "\n\n## Task"@ + PROMPT_AFTER_TRACE@.skip(9),
{
    reveal_strlit(r#"" after a successful execution.

## Current Skill Definition

```toml
"#);
    reveal_strlit(r#"
```

## Execution Trace

"#);
    reveal_strlit(r#"

## Task

Based on the execution trace above, decide whether the skill definition should be improved.

Respond with a JSON object in this exact format:
{"improved_content": "..." or null, "reason": "..."}

- If the skill is adequate as-is, set `improved_content` to `null`.
- If you propose improvements, set `improved_content` to the full updated TOML content.
- Always provide a `reason` explaining your decision.
- Do not include any text outside the JSON object."#);
    reveal_strlit("\"");
    reveal_strlit("```toml\n");
    reveal_strlit("\n```");
    reveal_strlit("## Execution Trace\n\n");
    reveal_strlit("\n\n## Task");
    let c = PROMPT_BEFORE_CONTENT@;
    let t = PROMPT_BEFORE_TRACE@;
    let e = PROMPT_AFTER_TRACE@;
    assert(c.take(1) =~= "\""@);
    assert(c.skip(c.len() - 8) =~= "```toml\n"@);
    assert(t.take(4) =~= "\n```"@);
    assert(t.skip(t.len() - 20) =~= "## Execution Trace\n\n"@);
    assert(e.take(9) =~= "\n\n## Task"@);
    assert(c =~= c.take(1) + c.skip(1));
    assert(c =~= c.take(c.len() - 8) + c.skip(c.len() - 8));
    assert(t =~= t.take(4) + t.skip(4));
    assert(t =~= t.take(t.len() - 20) + t.skip(t.len() - 20));
    assert(e =~= e.take(9) + e.skip(9));
}

/// Text without code fences is read as it stands, less the space around it; what
/// stands in code fences without them, whatever language the first names.
pub proof fn law_fenced_answers_are_read(
    a: Seq<char>,
    s: Seq<char>,
    b: Seq<char>,
    language: Seq<char>,
)
    requires
        text::only_space(a),
        text::only_space(b),
        s.len() > 0,
        !text::is_space(s[0]) && !text::is_space(s.last()),
        s[0] != '`',
        !language.contains('\n'),
    ensures
        without_fences(a + s + b) == s,
        without_fences("```"@ + language + "\n"@ + s + "\n```"@) == s,
{
    reveal_strlit("```");
    reveal_strlit("\n");
    reveal_strlit("\n```");
    text::lemma_trim_around(a, s, b);
    assert(!text::has_prefix(s, "```"@)) by {
        if text::has_prefix(s, "```"@) {
            assert(s.take(3)[0] == '`');
        }
    }
    let none = Seq::<char>::empty();
    let whole = "```"@ + language + "\n"@ + s + "\n```"@;
    let kept = s + seq!['\n'];
    let after = kept + "```"@;
    let inner = language + seq!['\n'] + after;
    assert(text::is_space('\n') && !text::is_space('`'));
    assert(whole =~= "```"@ + inner);
    assert(whole[0] == '`' && whole.last() == '`');
    text::lemma_nothing_to_trim(whole);
    text::law_beginnings_and_ends_come_off("```"@, inner);
    let i = language.len() as int;
    assert("\n"@ =~= seq!['\n']);
    assert("\n"@.contains(inner[i])) by {
        assert("\n"@[0] == inner[i]);
    }
    assert forall|j: int| 0 <= j < i implies !"\n"@.contains(#[trigger] inner[j]) by {
        assert(inner[j] == language[j]);
    }
    text::lemma_find_any_is(inner, "\n"@, i);
    assert(inner.skip(i + 1) =~= after);
    text::law_beginnings_and_ends_come_off("```"@, kept);
    text::lemma_trim_around(none, s, seq!['\n']);
    assert(none + s + seq!['\n'] =~= kept);
}

/// There is an improvement exactly where the answer gives a content that is not
/// empty and a reason, both as texts: these two.
pub proof fn law_improvements_need_content_and_reason(answer: JsonView)
    ensures
        improvement(answer) is Some <==> answer.text_at("improved_content"@) is Some
            && answer.text_at("reason"@) is Some && answer.text_at("improved_content"@)->0.len() > 0,
        improvement(answer) matches Some((content, reason)) ==> answer.text_at(
            "improved_content"@,
        ) == Some(content) && answer.text_at("reason"@) == Some(reason),
{
}

} // verus!
