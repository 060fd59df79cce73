//! Surgical tool-result microcompaction.
//!
//! Replaces old, large tool-result messages with short placeholders before
//! each LLM call. Runs every turn with zero LLM cost (pure string ops).

use crate::providers::traits;
use crate::providers::traits::{ChatMessage, MessageView};
use crate::text;
use vstd::prelude::*;

verus! {

// ── Config ──────────────────────────────────────────────────────────

#[derive(Debug, Clone)]
pub struct MicrocompactionConfig {
    /// Enable microcompaction. Default: `true`.
    pub enabled: bool,
    /// Number of recent tool-result messages to protect from clearing. Default: `6`.
    pub protect_recent_turns: usize,
    /// Tool results exceeding this char count are cleared. Default: `500`.
    pub max_result_chars: usize,
    /// Number of chars to keep as an inline preview. Default: `200`.
    pub preview_chars: usize,
}

impl Default for MicrocompactionConfig {
    fn default() -> (r: Self)
        ensures
            r == (MicrocompactionConfig {
                enabled: true,
                protect_recent_turns: 6,
                max_result_chars: 500,
                preview_chars: 200,
            }),
    {
        MicrocompactionConfig {
            enabled: true,
            protect_recent_turns: 6,
            max_result_chars: 500,
            preview_chars: 200,
        }
    }
}

// ── Result ──────────────────────────────────────────────────────────

#[derive(Debug, Clone)]
pub struct MicrocompactionResult {
    pub cleared_count: usize,
    pub chars_reclaimed: usize,
}

// ── Sentinel ────────────────────────────────────────────────────────

pub const CLEARED_PREFIX: &'static str = "[Tool result cleared";

// ── Core ────────────────────────────────────────────────────────────

/// A message that carries a tool result.
pub open spec fn is_tool(m: MessageView) -> bool {
    m.role == "tool"@
}

/// The number of tool results among the messages from `from` on.
pub open spec fn tools_from(messages: Seq<MessageView>, from: int) -> nat
    decreases messages.len() - from,
{
    if from < 0 || from >= messages.len() {
        0
    } else if is_tool(messages[from]) {
        tools_from(messages, from + 1) + 1
    } else {
        tools_from(messages, from + 1)
    }
}

/// The number of tool results that came after the message at `i`.
pub open spec fn later_tools(messages: Seq<MessageView>, i: int) -> nat {
    tools_from(messages, i + 1)
}

/// The message at `i` is cleared: a tool result that is not among the most
/// recent ones, was not cleared before, and is too long.
pub open spec fn is_cleared(
    messages: Seq<MessageView>,
    config: MicrocompactionConfig,
    i: int,
) -> bool {
    &&& config.enabled
    &&& is_tool(messages[i])
    &&& later_tools(messages, i) >= config.protect_recent_turns
    &&& !text::has_prefix(messages[i].content, CLEARED_PREFIX@)
    &&& messages[i].content.len() > config.max_result_chars
}

/// How a tool result began.
pub open spec fn preview(content: Seq<char>, chars: usize) -> Seq<char> {
    if content.len() <= chars {
        content
    } else {
        content.take(chars as int)
    }
}

/// What a cleared tool result is replaced with: how long it was, and how it
/// began.
pub open spec fn placeholder(content: Seq<char>, config: MicrocompactionConfig) -> Seq<char> {
    CLEARED_PREFIX@ + " \u{2014} was "@ + text::decimal(content.len()) + " chars]\n"@ + preview(
        content,
        config.preview_chars,
    ) + "..."@
}

/// The message at `i` after compaction.
pub open spec fn compacted_at(
    messages: Seq<MessageView>,
    config: MicrocompactionConfig,
    i: int,
) -> MessageView {
    if is_cleared(messages, config, i) {
        MessageView { role: "tool"@, content: placeholder(messages[i].content, config) }
    } else {
        messages[i]
    }
}

/// The messages after compaction.
pub open spec fn compacted(
    messages: Seq<MessageView>,
    config: MicrocompactionConfig,
) -> Seq<MessageView> {
    Seq::new(messages.len(), |i: int| compacted_at(messages, config, i))
}

/// The number of the first `n` messages that are cleared.
pub open spec fn cleared_count(
    messages: Seq<MessageView>,
    config: MicrocompactionConfig,
    n: int,
) -> nat
    decreases n,
{
    if n <= 0 {
        0
    } else {
        cleared_count(messages, config, n - 1) + if is_cleared(messages, config, n - 1) {
            1nat
        } else {
            0nat
        }
    }
}

/// The chars that clearing the message at `i` saves.
pub open spec fn saved(
    messages: Seq<MessageView>,
    config: MicrocompactionConfig,
    i: int,
) -> nat {
    let before = messages[i].content.len();
    let after = placeholder(messages[i].content, config).len();
    if is_cleared(messages, config, i) && after < before {
        (before - after) as nat
    } else {
        0
    }
}

/// The chars saved among the first `n` messages.
pub open spec fn reclaimed(
    messages: Seq<MessageView>,
    config: MicrocompactionConfig,
    n: int,
) -> nat
    decreases n,
{
    if n <= 0 {
        0
    } else {
        reclaimed(messages, config, n - 1) + saved(messages, config, n - 1)
    }
}

/// What is kept of a too large sum.
pub open spec fn at_most_usize(n: nat) -> usize {
    if n <= usize::MAX {
        n as usize
    } else {
        usize::MAX
    }
}

fn placeholder_for(content: &str, config: &MicrocompactionConfig) -> (r: String)
    ensures
        r@ == placeholder(content@, *config),
{
    let total: usize = content.unicode_len();
    let kept: usize = if total <= config.preview_chars {
        total
    } else {
        config.preview_chars
    };
    let start = text::slice(content, 0, kept);
    proof {
        assert(start@ =~= preview(content@, config.preview_chars));
    }
    let size = text::decimal_of(total as u64);
    let mut r = text::cat5(CLEARED_PREFIX, " \u{2014} was ", size.as_str(), " chars]\n", start);
    r.append("...");
    r
}

/// Surgically replace old, large tool-result messages with short placeholders.
///
/// Scans `messages` for role `"tool"` entries older than the protected tail.
/// Those exceeding `max_result_chars` have their content replaced with a
/// short preview + cleared marker. Already-cleared messages are skipped.
///
/// This is idempotent and has zero LLM cost.
pub fn microcompact(
    messages: &mut Vec<ChatMessage>,
    config: &MicrocompactionConfig,
) -> (r: MicrocompactionResult)
    ensures
        traits::message_views(final(messages)@) == compacted(
            traits::message_views(old(messages)@),
            *config,
        ),
        r.cleared_count == cleared_count(
            traits::message_views(old(messages)@),
            *config,
            old(messages)@.len() as int,
        ),
        r.chars_reclaimed == at_most_usize(
            reclaimed(
                traits::message_views(old(messages)@),
                *config,
                old(messages)@.len() as int,
            ),
        ),
{
    let ghost all = traits::message_views(messages@);
    let total: usize = messages.len();
    proof {
        assert(all.len() == total);
    }
    if !config.enabled {
        proof {
            assert(traits::message_views(messages@) =~= compacted(all, *config));
            lemma_nothing_cleared(all, *config, total as int);
        }
        return MicrocompactionResult { cleared_count: 0, chars_reclaimed: 0 };
    }
    // Count tool messages from the end to find the protection boundary:
    // messages at and after it are protected.
    let mut boundary: usize = total;
    let mut recent: usize = 0;
    proof {
        assert(tools_from(all, total as int) == 0);
    }
    while boundary > 0 && recent < config.protect_recent_turns
        invariant
            boundary <= total,
            total == messages@.len(),
            all == traits::message_views(messages@),
            recent == tools_from(all, boundary as int),
            recent <= total - boundary,
            recent <= config.protect_recent_turns,
            forall|i: int|
                boundary <= i < total && is_tool(all[i]) ==> later_tools(all, i)
                    < config.protect_recent_turns,
        decreases boundary,
    {
        proof {
            assert(all[boundary - 1] == messages@[boundary - 1]@);
        }
        if text::same_text(messages[boundary - 1].role.as_str(), "tool") {
            recent = recent + 1;
        }
        boundary = boundary - 1;
    }
    let mut count: usize = 0;
    let mut freed: usize = 0;
    let ghost edge = boundary as int;
    proof {
        if recent < config.protect_recent_turns {
            assert(boundary == 0);
        }
        assert forall|i: int| 0 <= i < edge implies #[trigger] later_tools(all, i)
            >= config.protect_recent_turns by {
            lemma_tools_from_mono(all, i + 1, edge);
        }
    }
    for i in 0..boundary
        invariant
            config.enabled,
            boundary <= total,
            edge == boundary,
            total == messages@.len(),
            total == all.len(),
            forall|k: int| i <= k < total ==> (#[trigger] messages@[k])@ == all[k],
            forall|k: int| 0 <= k < i ==> (#[trigger] messages@[k])@ == compacted_at(all, *config, k),
            forall|k: int|
                0 <= k < edge ==> #[trigger] later_tools(all, k) >= config.protect_recent_turns,
            count <= i,
            count == cleared_count(all, *config, i as int),
            freed == at_most_usize(reclaimed(all, *config, i as int)),
    {
        proof {
            assert(messages@[i as int]@ == all[i as int]);
            assert(later_tools(all, i as int) >= config.protect_recent_turns);
        }
        let is_result = text::same_text(messages[i].role.as_str(), "tool");
        if is_result && !text::starts_with(messages[i].content.as_str(), CLEARED_PREFIX)
            && messages[i].content.as_str().unicode_len() > config.max_result_chars {
            let before: usize = messages[i].content.as_str().unicode_len();
            let replacement = placeholder_for(messages[i].content.as_str(), config);
            let after: usize = replacement.as_str().unicode_len();
            let gain: usize = if after < before {
                before - after
            } else {
                0
            };
            freed = if gain <= usize::MAX - freed {
                freed + gain
            } else {
                usize::MAX
            };
            count = count + 1;
            messages.set(i, ChatMessage::tool(replacement));
        }
    }
    proof {
        assert forall|k: int| edge <= k < total implies !is_cleared(all, *config, k) by {
            if is_tool(all[k]) {
                assert(later_tools(all, k) < config.protect_recent_turns);
            }
        }
        assert forall|k: int| 0 <= k < total implies (#[trigger] messages@[k])@ == compacted_at(
            all,
            *config,
            k,
        ) by {}
        assert(traits::message_views(messages@) =~= compacted(all, *config));
        lemma_none_after(all, *config, edge, total as int);
    }
    MicrocompactionResult { cleared_count: count, chars_reclaimed: freed }
}

proof fn lemma_tools_from_mono(messages: Seq<MessageView>, i: int, j: int)
    requires
        0 <= i <= j <= messages.len(),
    ensures
        tools_from(messages, i) >= tools_from(messages, j),
    decreases j - i,
{
    if i < j {
        lemma_tools_from_mono(messages, i + 1, j);
    }
}

proof fn lemma_nothing_cleared(messages: Seq<MessageView>, config: MicrocompactionConfig, n: int)
    requires
        forall|i: int| 0 <= i < n ==> !#[trigger] is_cleared(messages, config, i),
    ensures
        cleared_count(messages, config, n) == 0,
        reclaimed(messages, config, n) == 0,
    decreases n,
{
    if n > 0 {
        assert(!is_cleared(messages, config, n - 1));
        lemma_nothing_cleared(messages, config, n - 1);
    }
}

proof fn lemma_none_after(
    messages: Seq<MessageView>,
    config: MicrocompactionConfig,
    from: int,
    n: int,
)
    requires
        0 <= from <= n,
        forall|i: int| from <= i < n ==> !#[trigger] is_cleared(messages, config, i),
    ensures
        cleared_count(messages, config, n) == cleared_count(messages, config, from),
        reclaimed(messages, config, n) == reclaimed(messages, config, from),
    decreases n - from,
{
    if from < n {
        assert(!is_cleared(messages, config, n - 1));
        lemma_none_after(messages, config, from, n - 1);
    }
}

// ── Laws ────────────────────────────────────────────────────────────

proof fn lemma_same_tools(
    messages: Seq<MessageView>,
    config: MicrocompactionConfig,
    from: int,
)
    requires
        0 <= from,
    ensures
        tools_from(compacted(messages, config), from) == tools_from(messages, from),
    decreases messages.len() - from,
{
    if from < messages.len() {
        lemma_same_tools(messages, config, from + 1);
    }
}

/// Compaction is idempotent: a second run clears nothing.
pub proof fn law_compaction_is_idempotent(
    messages: Seq<MessageView>,
    config: MicrocompactionConfig,
)
    ensures
        compacted(compacted(messages, config), config) == compacted(messages, config),
        cleared_count(compacted(messages, config), config, messages.len() as int) == 0,
{
    let once = compacted(messages, config);
    assert forall|i: int| 0 <= i < once.len() implies !#[trigger] is_cleared(once, config, i) by {
        lemma_same_tools(messages, config, i + 1);
        if is_cleared(messages, config, i) {
            let content = once[i].content;
            assert(content.take(CLEARED_PREFIX@.len() as int) =~= CLEARED_PREFIX@);
        }
    }
    lemma_nothing_cleared(once, config, messages.len() as int);
    assert(compacted(once, config) =~= once);
}

/// Compaction keeps every message that is not a tool result, every tool result
/// among the most recent ones, and every one that is short enough; and it keeps
/// the role of each message.
pub proof fn law_compaction_keeps_the_rest(
    messages: Seq<MessageView>,
    config: MicrocompactionConfig,
    i: int,
)
    requires
        0 <= i < messages.len(),
    ensures
        compacted(messages, config)[i].role == messages[i].role,
        !is_tool(messages[i]) ==> compacted(messages, config)[i] == messages[i],
        later_tools(messages, i) < config.protect_recent_turns ==> compacted(messages, config)[i]
            == messages[i],
        messages[i].content.len() <= config.max_result_chars ==> compacted(
            messages,
            config,
        )[i] == messages[i],
{
}

/// The tool results among messages.
pub open spec fn tool_results(messages: Seq<MessageView>) -> Seq<MessageView> {
    messages.filter(|m: MessageView| m.role == "tool"@)
}

proof fn lemma_tools_are_counted(messages: Seq<MessageView>, from: int)
    requires
        0 <= from <= messages.len(),
    ensures
        tools_from(messages, from) == tool_results(messages.skip(from)).len(),
    decreases messages.len() - from,
{
    let is = |m: MessageView| m.role == "tool"@;
    if from < messages.len() {
        lemma_tools_are_counted(messages, from + 1);
        let head = seq![messages[from]];
        assert(messages.skip(from) =~= head + messages.skip(from + 1));
        Seq::filter_distributes_over_add(head, messages.skip(from + 1), is);
        reveal(Seq::filter);
        assert(head.drop_last() =~= Seq::<MessageView>::empty());
        assert(head.drop_last().filter(is) =~= Seq::<MessageView>::empty());
        assert(head.last() == messages[from]);
        assert(head.filter(is).len() == if is_tool(messages[from]) {
            1nat
        } else {
            0nat
        });
    } else {
        assert(messages.skip(from) =~= Seq::<MessageView>::empty());
        reveal(Seq::filter);
    }
}

/// A message changes exactly where compaction is on, it is a tool result with at
/// least as many later ones as are protected, it is longer than allowed, and it
/// was not cleared before. What it changes to says that it was cleared, and how
/// long it was, and holds how it began.
pub proof fn law_old_long_results_are_cleared(
    messages: Seq<MessageView>,
    config: MicrocompactionConfig,
    i: int,
)
    requires
        0 <= i < messages.len(),
    ensures
        compacted(messages, config).len() == messages.len(),
        compacted(messages, config)[i] != messages[i] <==> {
            &&& config.enabled
            &&& messages[i].role == "tool"@
            &&& tool_results(messages.skip(i + 1)).len() >= config.protect_recent_turns
            &&& messages[i].content.len() > config.max_result_chars
            &&& !text::has_prefix(messages[i].content, "[Tool result cleared"@)
        },
        compacted(messages, config)[i] != messages[i] ==> {
            let now = compacted(messages, config)[i];
            let was = messages[i].content;
            &&& now.role == "tool"@
            &&& text::has_prefix(
                now.content,
                "[Tool result cleared"@ + " \u{2014} was "@ + text::decimal(was.len()) + " chars]\n"@,
            )
            &&& text::has_suffix(
                now.content,
                "\n"@ + was.take(
                    if was.len() <= config.preview_chars {
                        was.len() as int
                    } else {
                        config.preview_chars as int
                    },
                ) + "..."@,
            )
        },
{
    lemma_tools_are_counted(messages, i + 1);
    let was = messages[i].content;
    let now = placeholder(was, config);
    let before = "[Tool result cleared"@ + " \u{2014} was "@ + text::decimal(was.len())
        + " chars]\n"@;
    let begun = preview(was, config.preview_chars);
    assert(was.take(was.len() as int) =~= was);
    assert(now =~= before + (begun + "..."@));
    text::lemma_prefix(before, begun + "..."@);
    reveal_strlit(" chars]\n");
    reveal_strlit("\n");
    assert(" chars]\n"@ =~= " chars]\n"@.take(7) + "\n"@);
    let front = "[Tool result cleared"@ + " \u{2014} was "@ + text::decimal(was.len())
        + " chars]\n"@.take(7);
    assert(now =~= front + ("\n"@ + begun + "..."@));
    text::lemma_suffix(front, "\n"@ + begun + "..."@);
    let rest = " \u{2014} was "@ + text::decimal(was.len()) + " chars]\n"@ + begun + "..."@;
    assert(now =~= "[Tool result cleared"@ + rest);
    text::lemma_prefix("[Tool result cleared"@, rest);
}

/// What a run counts: one for each message that changes, and the characters by
/// which those that became shorter did, up to what a number can hold.
pub proof fn law_cleared_results_are_counted(
    messages: Seq<MessageView>,
    config: MicrocompactionConfig,
    n: int,
    sum: nat,
)
    requires
        0 <= n < messages.len(),
    ensures
        cleared_count(messages, config, 0) == 0 && reclaimed(messages, config, 0) == 0,
        cleared_count(messages, config, n + 1) == cleared_count(messages, config, n) + if compacted(
            messages,
            config,
        )[n] != messages[n] {
            1int
        } else {
            0int
        },
        reclaimed(messages, config, n + 1) == reclaimed(messages, config, n) + if compacted(
            messages,
            config,
        )[n].content.len() < messages[n].content.len() {
            messages[n].content.len() - compacted(messages, config)[n].content.len()
        } else {
            0int
        },
        sum <= usize::MAX ==> at_most_usize(sum) == sum,
        sum > usize::MAX ==> at_most_usize(sum) == usize::MAX,
{
    law_old_long_results_are_cleared(messages, config, n);
    lemma_tools_are_counted(messages, n + 1);
}

} // verus!
