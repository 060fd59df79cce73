//! Smart tool output formatting and truncation.
//!
//! Intelligently truncates large tool outputs while preserving structure.

use crate::text;
use vstd::prelude::*;

verus! {

/// Maximum output length in characters before truncation kicks in.
pub const MAX_OUTPUT_CHARS: usize = 100_000;

/// Number of lines to preserve at the head and tail when truncating.
pub const PRESERVE_HEAD_LINES: usize = 50;

pub const PRESERVE_TAIL_LINES: usize = 30;

/// Truncation indicator inserted between head and tail.
pub const TRUNCATION_MARKER: &'static str = "\n\n... [output truncated — showing first and last lines] ...\n\n";

/// Half of the characters that a truncated output keeps.
pub const MAX_HALF: usize = 50_000;

/// The start of `s`, of half of the limit.
pub open spec fn head_part(s: Seq<char>) -> Seq<char> {
    if s.len() <= MAX_HALF {
        s
    } else {
        s.take(MAX_HALF as int)
    }
}

/// The end of `s`, of half of the limit.
pub open spec fn tail_part(s: Seq<char>) -> Seq<char> {
    if s.len() <= MAX_HALF {
        s
    } else {
        s.skip(s.len() - MAX_HALF)
    }
}

/// The output is an object or an array in JSON, by its first and last
/// character.
pub open spec fn json_like(output: Seq<char>) -> bool {
    let t = text::trim(output);
    ||| text::has_prefix(t, seq!['{']) && text::has_suffix(t, seq!['}'])
    ||| text::has_prefix(t, seq!['[']) && text::has_suffix(t, seq![']'])
}

/// A JSON output of which the middle is left out.
pub open spec fn cut_json(output: Seq<char>) -> Seq<char> {
    head_part(output) + "\n\n... [JSON truncated — "@ + text::decimal(output.len())
        + " total chars, showing first and last portions] ...\n\n"@ + tail_part(output)
}

/// An output of which the lines in the middle are left out; where it has too
/// few lines, the middle by characters.
pub open spec fn cut_lines(output: Seq<char>) -> Seq<char> {
    let lines = text::lines(output);
    let n = lines.len() as int;
    if n <= PRESERVE_HEAD_LINES + PRESERVE_TAIL_LINES {
        head_part(output) + TRUNCATION_MARKER@ + tail_part(output)
    } else {
        text::join(lines.take(PRESERVE_HEAD_LINES as int), "\n"@) + "\n\n... ["@ + text::decimal(
            (n - PRESERVE_HEAD_LINES - PRESERVE_TAIL_LINES) as nat,
        ) + " lines omitted — showing first 50 and last 30 of "@ + text::decimal(n as nat)
            + " total lines] ...\n\n"@ + text::join(
            lines.skip(n - PRESERVE_TAIL_LINES),
            "\n"@,
        )
    }
}

/// The output as it is shown.
pub open spec fn shown(output: Seq<char>) -> Seq<char> {
    if output.len() <= MAX_OUTPUT_CHARS {
        output
    } else if json_like(output) {
        cut_json(output)
    } else {
        cut_lines(output)
    }
}

/// Smart-truncate tool output based on content type and size.
///
/// Strategy:
/// 1. If output is small enough, return as-is
/// 2. If output looks like JSON, attempt to preserve structure
/// 3. Otherwise, keep first N + last N lines with truncation marker
pub fn truncate_output(output: &str, _tool_name: &str) -> (r: String)
    ensures
        r@ == shown(output@),
{
    if output.unicode_len() <= MAX_OUTPUT_CHARS {
        return output.to_string();
    }
    // JSON-aware truncation: if it looks like JSON, try to preserve the wrapper
    if is_json_like(output) {
        return truncate_json(output);
    }
    // Line-based truncation: keep head + tail
    truncate_lines(output)
}

/// Check if output appears to be JSON.
pub fn is_json_like(output: &str) -> (r: bool)
    ensures
        r == json_like(output@),
{
    let trimmed = text::trimmed(output);
    proof {
        reveal_strlit("{");
        reveal_strlit("}");
        reveal_strlit("[");
        reveal_strlit("]");
        assert("{"@ =~= seq!['{'] && "}"@ =~= seq!['}'] && "["@ =~= seq!['['] && "]"@ =~= seq![']']);
    }
    (text::starts_with(trimmed, "{") && text::ends_with(trimmed, "}")) || (text::starts_with(
        trimmed,
        "[",
    ) && text::ends_with(trimmed, "]"))
}

fn head_of(output: &str) -> (r: &str)
    ensures
        r@ == head_part(output@),
{
    let size: usize = output.unicode_len();
    if size <= MAX_HALF {
        return output;
    }
    let head = text::slice(output, 0, MAX_HALF);
    proof {
        assert(head@ =~= output@.take(MAX_HALF as int));
    }
    head
}

fn tail_of(output: &str) -> (r: &str)
    ensures
        r@ == tail_part(output@),
{
    let size: usize = output.unicode_len();
    if size <= MAX_HALF {
        return output;
    }
    let tail = text::slice(output, size - MAX_HALF, size);
    proof {
        assert(tail@ =~= output@.skip(size - MAX_HALF));
    }
    tail
}

/// Truncate JSON by preserving the opening structure and closing.
pub fn truncate_json(output: &str) -> (r: String)
    ensures
        r@ == cut_json(output@),
{
    let size = text::decimal_of(output.unicode_len() as u64);
    text::cat5(
        head_of(output),
        "\n\n... [JSON truncated — ",
        size.as_str(),
        " total chars, showing first and last portions] ...\n\n",
        tail_of(output),
    )
}

fn some_lines(lines: &Vec<String>, from: usize, to: usize) -> (r: String)
    requires
        from <= to <= lines@.len(),
    ensures
        r@ == text::join(text::views(lines@).subrange(from as int, to as int), "\n"@),
{
    let mut part: Vec<String> = Vec::new();
    for i in from..to
        invariant
            from <= to <= lines@.len(),
            text::views(part@) == text::views(lines@).subrange(from as int, i as int),
    {
        let ghost before = text::views(part@);
        part.push(lines[i].clone());
        proof {
            assert(text::views(part@) =~= before.push(lines@[i as int]@));
            assert(text::views(lines@).subrange(from as int, i + 1) =~= before.push(
                lines@[i as int]@,
            ));
        }
    }
    text::joined(&part, "\n")
}

/// Truncate by preserving first N and last N lines.
pub fn truncate_lines(output: &str) -> (r: String)
    ensures
        r@ == cut_lines(output@),
{
    let lines = text::split_lines(output);
    let ghost all = text::lines(output@);
    let n: usize = lines.len();
    proof {
        assert(text::views(lines@).len() == n);
    }
    if n <= PRESERVE_HEAD_LINES + PRESERVE_TAIL_LINES {
        // Not enough lines to meaningfully truncate by lines;
        // fall back to char-based truncation
        return text::cat3(head_of(output), TRUNCATION_MARKER, tail_of(output));
    }
    let head = some_lines(&lines, 0, PRESERVE_HEAD_LINES);
    let tail = some_lines(&lines, n - PRESERVE_TAIL_LINES, n);
    proof {
        assert(all.subrange(0, PRESERVE_HEAD_LINES as int) =~= all.take(
            PRESERVE_HEAD_LINES as int,
        ));
        assert(all.subrange(n - PRESERVE_TAIL_LINES, n as int) =~= all.skip(
            n - PRESERVE_TAIL_LINES,
        ));
    }
    let omitted = text::decimal_of((n - PRESERVE_HEAD_LINES - PRESERVE_TAIL_LINES) as u64);
    let total = text::decimal_of(n as u64);
    let mut r = text::cat5(
        head.as_str(),
        "\n\n... [",
        omitted.as_str(),
        " lines omitted — showing first 50 and last 30 of ",
        total.as_str(),
    );
    r.append(" total lines] ...\n\n");
    r.append(tail.as_str());
    r
}

/// Find a safe UTF-8 char boundary at or before the given byte index.
pub fn safe_char_boundary(s: &str, index: usize) -> (r: usize)
    ensures
        r == text::byte_len(s@.take(text::fit(s@, index as int) as int)),
        r <= index,
        r <= text::byte_len(s@),
        index >= text::byte_len(s@) ==> r == text::byte_len(s@),
{
    let k: usize = text::fitting(s, index);
    let head = text::slice(s, 0, k);
    proof {
        assert(head@ =~= s@.take(k as int));
        text::lemma_fit(s@, index as int);
        text::lemma_byte_len_mono(s@, k as int, s@.len() as int);
        assert(s@.take(s@.len() as int) =~= s@);
    }
    text::byte_length(head)
}

// ── Laws ────────────────────────────────────────────────────────────────────

/// Small output is shown as it is. Of large output the start and the end are
/// shown: each part stands in the output, at its start or its end, and takes
/// half of the limit.
pub proof fn law_head_and_tail_are_kept(output: Seq<char>)
    ensures
        output.len() <= MAX_OUTPUT_CHARS ==> shown(output) == output,
        text::has_prefix(output, head_part(output)),
        text::has_suffix(output, tail_part(output)),
        output.len() > MAX_OUTPUT_CHARS ==> head_part(output).len() == MAX_HALF && tail_part(
            output,
        ).len() == MAX_HALF,
{
    assert(output.take(head_part(output).len() as int) =~= head_part(output));
    assert(output.skip(output.len() - tail_part(output).len()) =~= tail_part(output));
}

/// Where lines are left out, the first and the last line are still shown.
pub proof fn law_outer_lines_are_kept(output: Seq<char>)
    requires
        text::lines(output).len() > PRESERVE_HEAD_LINES + PRESERVE_TAIL_LINES,
    ensures
        text::contains(cut_lines(output), text::lines(output)[0]),
        text::contains(cut_lines(output), text::lines(output).last()),
{
    let lines = text::lines(output);
    let n = lines.len() as int;
    let head = lines.take(PRESERVE_HEAD_LINES as int);
    let tail = lines.skip(n - PRESERVE_TAIL_LINES);
    let middle = "\n\n... ["@ + text::decimal(
        (n - PRESERVE_HEAD_LINES - PRESERVE_TAIL_LINES) as nat,
    ) + " lines omitted — showing first 50 and last 30 of "@ + text::decimal(n as nat)
        + " total lines] ...\n\n"@;
    let h = text::join(head, "\n"@);
    let t = text::join(tail, "\n"@);
    text::lemma_contains_self(lines[0]);
    text::lemma_contains_self(lines.last());
    text::lemma_join_contains(head, "\n"@, 0, lines[0]);
    text::lemma_join_contains(tail, "\n"@, tail.len() - 1, lines.last());
    text::lemma_contains_within(Seq::<char>::empty(), h, middle + t, lines[0]);
    text::lemma_contains_within(h + middle, t, Seq::<char>::empty(), lines.last());
    assert(Seq::<char>::empty() + h + (middle + t) =~= cut_lines(output));
    assert(h + middle + t + Seq::<char>::empty() =~= cut_lines(output));
}

/// Output of up to a hundred thousand characters is shown as it is. Of larger
/// JSON, the first and the last fifty thousand characters are shown, and between
/// them how many there are.
pub proof fn law_large_json_is_cut_in_the_middle(output: Seq<char>)
    ensures
        output.len() <= 100_000 ==> shown(output) == output,
        output.len() > 100_000 && json_like(output) ==> {
            &&& shown(output) == cut_json(output)
            &&& text::has_prefix(shown(output), output.take(50_000))
            &&& text::has_suffix(shown(output), output.skip(output.len() - 50_000))
            &&& text::contains(
                shown(output),
                "\n\n... [JSON truncated — "@ + text::decimal(output.len()) + " total chars"@,
            )
        },
        output.len() > 100_000 && !json_like(output) ==> shown(output) == cut_lines(output),
{
    if output.len() > 100_000 && json_like(output) {
        let h = output.take(50_000);
        let t = output.skip(output.len() - 50_000);
        let opened = "\n\n... [JSON truncated — "@;
        let n = text::decimal(output.len());
        let rest = " total chars, showing first and last portions] ...\n\n"@;
        let total = " total chars"@;
        reveal_strlit(" total chars, showing first and last portions] ...\n\n");
        reveal_strlit(" total chars");
        assert(rest.take(12) =~= total);
        let tail = rest.skip(12) + t;
        assert(rest =~= total + rest.skip(12));
        assert(shown(output) =~= h + (opened + n + rest + t));
        text::lemma_prefix(h, opened + n + rest + t);
        assert(shown(output) =~= (h + opened + n + rest) + t);
        text::lemma_suffix(h + opened + n + rest, t);
        assert(shown(output) =~= h + (opened + n + total) + tail);
        text::law_found_texts_stand_within(shown(output), opened + n + total);
    }
}

/// Output is taken for JSON where, without the space around it, it stands in
/// braces or in brackets.
pub proof fn law_json_stands_in_braces_or_brackets(output: Seq<char>)
    ensures
        json_like(output) <==> text::trim(output).len() >= 2 && {
            ||| text::trim(output)[0] == '{' && text::trim(output).last() == '}'
            ||| text::trim(output)[0] == '[' && text::trim(output).last() == ']'
        },
{
    let t = text::trim(output);
    if t.len() > 0 {
        assert(t.take(1) =~= seq![t[0]]);
        assert(t.skip(t.len() - 1) =~= seq![t.last()]);
        assert(seq!['{'][0] == '{' && seq!['}'][0] == '}' && seq!['['][0] == '[' && seq![']'][0]
            == ']');
        assert(seq![t[0]][0] == t[0] && seq![t.last()][0] == t.last());
    }
}

/// Where lines are left out, the first fifty and the last thirty are shown.
pub proof fn law_first_fifty_and_last_thirty_lines_are_shown(output: Seq<char>)
    requires
        text::lines(output).len() > 80,
    ensures
        ({
            let lines = text::lines(output);
            &&& text::has_prefix(cut_lines(output), text::join(lines.take(50), "\n"@))
            &&& text::has_suffix(
                cut_lines(output),
                text::join(lines.skip(lines.len() - 30), "\n"@),
            )
        }),
{
    let lines = text::lines(output);
    let first = text::join(lines.take(50), "\n"@);
    let last = text::join(lines.skip(lines.len() - 30), "\n"@);
    let a = first + "\n\n... ["@ + text::decimal((lines.len() - 80) as nat)
        + " lines omitted — showing first 50 and last 30 of "@ + text::decimal(lines.len())
        + " total lines] ...\n\n"@;
    let rest = a.skip(first.len() as int);
    assert(cut_lines(output) == a + last);
    text::lemma_suffix(a, last);
    assert(a.take(first.len() as int) =~= first);
    assert(a + last =~= first + (rest + last));
    text::lemma_prefix(first, rest + last);
}

proof fn lemma_note_of_lines(first: Seq<char>, left: Seq<char>, n: Seq<char>, last: Seq<char>)
    ensures
        ({
            let all = first + "\n\n... ["@ + left
                + " lines omitted — showing first 50 and last 30 of "@ + n
                + " total lines] ...\n\n"@ + last;
            &&& text::contains(all, "\n\n... ["@ + left + " lines omitted"@)
            &&& text::contains(all, " of "@ + n + " total lines]"@)
        }),
{
    let opened = "\n\n... ["@;
    let middle = " lines omitted — showing first 50 and last 30 of "@;
    let closed = " total lines] ...\n\n"@;
    reveal_strlit(" lines omitted — showing first 50 and last 30 of ");
    reveal_strlit(" lines omitted");
    reveal_strlit(" of ");
    reveal_strlit(" total lines] ...\n\n");
    reveal_strlit(" total lines]");
    let n1 = middle.len() - 4;
    assert(middle =~= " lines omitted"@ + middle.skip(14));
    assert(middle =~= middle.take(n1) + " of "@);
    assert(closed =~= " total lines]"@ + closed.skip(13));
    lemma_within(first, opened + left, " lines omitted"@, middle.skip(14) + (n + closed + last));
    let all = first + opened + left + middle + n + closed + last;
    assert(all =~= first + ((opened + left) + " lines omitted"@) + (middle.skip(14) + (n + closed + last)));
    lemma_within(
        first + opened + left + middle.take(n1),
        " of "@ + n,
        " total lines]"@,
        closed.skip(13) + last,
    );
    assert(all =~= (first + opened + left + middle.take(n1)) + ((" of "@ + n) + " total lines]"@)
        + (closed.skip(13) + last));
}

proof fn lemma_within(a: Seq<char>, b: Seq<char>, c: Seq<char>, d: Seq<char>)
    ensures
        text::contains(a + (b + c) + d, b + c),
{
    text::law_found_texts_stand_within(a + (b + c) + d, b + c);
}

/// Where lines are left out, it is said how many were, and how many there are.
pub proof fn law_left_out_lines_are_counted(output: Seq<char>)
    requires
        text::lines(output).len() > 80,
    ensures
        text::contains(
            cut_lines(output),
            "\n\n... ["@ + text::decimal((text::lines(output).len() - 80) as nat) + " lines omitted"@,
        ),
        text::contains(
            cut_lines(output),
            " of "@ + text::decimal(text::lines(output).len()) + " total lines]"@,
        ),
{
    let lines = text::lines(output);
    lemma_note_of_lines(
        text::join(lines.take(50), "\n"@),
        text::decimal((lines.len() - 80) as nat),
        text::decimal(lines.len()),
        text::join(lines.skip(lines.len() - 30), "\n"@),
    );
}

/// Where there are too few lines to leave any out, the first and the last fifty
/// thousand characters are shown, with a note between them.
pub proof fn law_long_lines_are_cut_by_characters(output: Seq<char>)
    requires
        text::lines(output).len() <= 80,
        output.len() > 100_000,
    ensures
        text::has_prefix(cut_lines(output), output.take(50_000)),
        text::has_suffix(cut_lines(output), output.skip(output.len() - 50_000)),
        cut_lines(output).len() == 100_000 + TRUNCATION_MARKER@.len(),
{
    let h = output.take(50_000);
    let t = output.skip(output.len() - 50_000);
    text::lemma_prefix(h, TRUNCATION_MARKER@ + t);
    assert(cut_lines(output) =~= h + (TRUNCATION_MARKER@ + t));
    text::lemma_suffix(h + TRUNCATION_MARKER@, t);
}

} // verus!
