//! Tail-preserving tool-result formatter.
//!
//! The tail of tool output is where errors live. When truncation is needed,
//! we drop bytes from the **head** and preserve the end, with a single-line
//! prefix disclosing how many bytes were cut.

use crate::text;
use vstd::prelude::*;

verus! {

/// Hard cap on per-tool output bytes fed back to the model.
pub const MAX_TOOL_OUTPUT_BYTES: usize = 32_768;

/// The number of leading characters that are dropped: at least so many that the
/// rest fits, and on to the start of the next line where there is one.
pub open spec fn dropped_chars(content: Seq<char>) -> int {
    let cut = text::reach(
        content,
        text::byte_len(content) as int - MAX_TOOL_OUTPUT_BYTES as int,
    ) as int;
    match text::find_any(content.skip(cut), seq!['\n']) {
        Some(j) => if cut + j + 1 < content.len() {
            cut + j + 1
        } else {
            cut
        },
        None => cut,
    }
}

/// A tool's output as the model sees it.
pub open spec fn shown(content: Seq<char>) -> Seq<char> {
    if text::byte_len(content) <= MAX_TOOL_OUTPUT_BYTES {
        content
    } else {
        let k = dropped_chars(content);
        "[..."@ + text::decimal(text::byte_len(content.take(k)))
            + " bytes omitted from head; tail preserved...]\n"@ + content.skip(k)
    }
}

/// Format a tool's raw output for the model:
/// - If it takes at most `MAX_TOOL_OUTPUT_BYTES`, return it verbatim.
/// - Otherwise, drop bytes from the head until it fits and prepend a
///   one-line prefix announcing the byte count dropped.
///
/// `_success` is currently unused but reserved for future
/// per-success-state handling (e.g. different caps for stdout vs stderr).
pub fn format_tool_output(content: &str, _success: bool) -> (r: String)
    ensures
        r@ == shown(content@),
{
    let size: usize = text::byte_length(content);
    if size <= MAX_TOOL_OUTPUT_BYTES {
        return content.to_string();
    }
    let n: usize = content.unicode_len();
    let mut cut: usize = text::reaching(content, size - MAX_TOOL_OUTPUT_BYTES);
    let rest = text::slice(content, cut, n);
    proof {
        assert(rest@ =~= content@.skip(cut as int));
        reveal_strlit("\n");
        assert("\n"@ =~= seq!['\n']);
    }
    if let Some(j) = text::find_any_of(&text::chars_of(rest), "\n") {
        if j < n - cut && j + 1 < n - cut {
            cut = cut + j + 1;
        }
    }
    let head = text::slice(content, 0, cut);
    let tail = text::slice(content, cut, n);
    proof {
        assert(head@ =~= content@.take(cut as int));
        assert(tail@ =~= content@.skip(cut as int));
    }
    let dropped = text::decimal_of(text::byte_length(head) as u64);
    text::cat4(
        "[...",
        dropped.as_str(),
        " bytes omitted from head; tail preserved...]\n",
        tail,
    )
}

/// Truncation keeps the end of the output: what is shown is the output itself,
/// or a note and a part of it that reaches to its end and fits the cap.
pub proof fn law_tail_is_preserved(content: Seq<char>)
    ensures
        text::byte_len(content) <= MAX_TOOL_OUTPUT_BYTES ==> shown(content) == content,
        text::byte_len(content) > MAX_TOOL_OUTPUT_BYTES ==> {
            let k = dropped_chars(content);
            &&& 0 < k <= content.len()
            &&& text::has_suffix(shown(content), content.skip(k))
            &&& text::byte_len(content.skip(k)) <= MAX_TOOL_OUTPUT_BYTES
        },
{
    if text::byte_len(content) > MAX_TOOL_OUTPUT_BYTES {
        let wanted = text::byte_len(content) as int - MAX_TOOL_OUTPUT_BYTES as int;
        let cut = text::reach(content, wanted) as int;
        let k = dropped_chars(content);
        text::lemma_reach(content, wanted);
        text::lemma_find_any(content.skip(cut), seq!['\n']);
        text::lemma_byte_len_mono(content, cut, k);
        text::lemma_byte_len_add(content.take(k), content.skip(k));
        assert(content =~= content.take(k) + content.skip(k));
        let note = "[..."@ + text::decimal(text::byte_len(content.take(k)))
            + " bytes omitted from head; tail preserved...]\n"@;
        assert(shown(content).skip(shown(content).len() - content.skip(k).len()) =~= content.skip(
            k,
        ));
        if k == 0 {
            assert(content.take(0) =~= Seq::<char>::empty());
        }
    }
}

/// Output that is too long loses no more than it must: from the first character
/// on with which the rest takes at most 32,768 bytes, it begins with the next
/// line where one begins before its end, and right there where none does. The
/// note in front tells how many bytes were dropped.
pub proof fn law_no_more_is_dropped_than_must_be(content: Seq<char>)
    requires
        text::byte_len(content) > 32_768,
    ensures
        exists|least: int, k: int|
            {
                &&& 0 < least <= k <= content.len()
                &&& text::byte_len(#[trigger] content.skip(least)) <= 32_768
                &&& text::byte_len(content.skip(least - 1)) > 32_768
                &&& shown(content) == "[..."@ + text::decimal(
                    text::byte_len(#[trigger] content.take(k)),
                ) + " bytes omitted from head; tail preserved...]\n"@ + content.skip(k)
                &&& k > least ==> k < content.len() && content[k - 1] == '\n' && forall|i: int|
                    least <= i < k - 1 ==> #[trigger] content[i] != '\n'
                &&& k == least ==> forall|i: int|
                    least <= i < content.len() - 1 ==> #[trigger] content[i] != '\n'
            },
{
    let size = text::byte_len(content) as int;
    let wanted = size - 32_768;
    let least = text::reach(content, wanted) as int;
    let k = dropped_chars(content);
    let rest = content.skip(least);
    law_tail_is_preserved(content);
    text::lemma_reach(content, wanted);
    text::lemma_fit(content, wanted);
    text::lemma_find_any(rest, seq!['\n']);
    assert(seq!['\n'].contains('\n')) by {
        assert(seq!['\n'][0] == '\n');
    }
    assert(least > 0) by {
        if least == 0 {
            assert(content.take(0) =~= Seq::<char>::empty());
            text::lemma_byte_len_add(Seq::<char>::empty(), Seq::<char>::empty());
            assert(Seq::<char>::empty() + Seq::<char>::empty() =~= Seq::<char>::empty());
        }
    }
    assert(content =~= content.take(least) + rest);
    text::lemma_byte_len_add(content.take(least), rest);
    assert(content =~= content.take(least - 1) + content.skip(least - 1));
    text::lemma_byte_len_add(content.take(least - 1), content.skip(least - 1));
    let f = text::fit(content, wanted) as int;
    if least == f {
        text::lemma_byte_len_mono(content, least - 1, least);
        text::lemma_byte_len_push(content.take(least - 1), content[least - 1]);
        assert(content.take(least) =~= content.take(least - 1).push(content[least - 1]));
    }
    assert(text::byte_len(content.take(least - 1)) < wanted);
    assert forall|i: int| least <= i < content.len() implies rest[i - least] == #[trigger] content[i] by {}
    match text::find_any(rest, seq!['\n']) {
        Some(j) => {
            assert forall|i: int| least <= i < least + j implies #[trigger] content[i] != '\n' by {
                assert(!seq!['\n'].contains(rest[i - least]));
            }
            assert(content[least + j] == '\n') by {
                assert(seq!['\n'].contains(rest[j]));
            }
        },
        None => {
            assert forall|i: int| least <= i < content.len() implies #[trigger] content[i]
                != '\n' by {
                assert(!seq!['\n'].contains(rest[i - least]));
            }
        },
    }
    assert(text::byte_len(content.skip(least)) <= 32_768);
    assert(content.take(k) == content.take(k));
}

} // verus!
