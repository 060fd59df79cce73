//! Outcome tracking for feedback-driven optimization.

use crate::text;
use vstd::prelude::*;

verus! {

#[derive(Debug, Clone, Copy, PartialEq, Eq, Structural)]
pub enum OutcomeSignal {
    Positive,
    Negative,
    Neutral,
}

#[derive(Debug, Clone)]
pub struct OutcomeRecord {
    pub turn_id: String,
    pub skill_used: Option<String>,
    pub signal: OutcomeSignal,
    pub tool_count: usize,
    pub timestamp: String,
}

/// One of `words` stands in `hay`.
pub open spec fn mentions(hay: Seq<char>, words: Seq<Seq<char>>) -> bool {
    exists|k: int| 0 <= k < words.len() && text::contains(hay, #[trigger] words[k])
}

/// What a correction says in English, in lower case.
pub open spec fn negative_keywords() -> Seq<Seq<char>> {
    seq!["wrong"@, "no "@, "not what"@, "incorrect"@, "didn't work"@, "broken"@, "fix "@, "undo"@]
}

/// What a correction says in Arabic.
pub open spec fn arabic_negative() -> Seq<Seq<char>> {
    seq!["غلط"@, "لا "@]
}

/// What praise says in English, in lower case.
pub open spec fn positive_keywords() -> Seq<Seq<char>> {
    seq!["thanks"@, "thank you"@, "perfect"@, "great"@, "exactly"@, "worked"@, "awesome"@, "love it"@]
}

/// What praise says in Arabic.
pub open spec fn arabic_positive() -> Seq<Seq<char>> {
    seq!["شكرا"@, "ممتاز"@, "تمام"@]
}

/// The follow-up corrects what was done.
pub open spec fn is_correction(follow_up: Seq<char>) -> bool {
    ||| mentions(text::ascii_lowered(follow_up), negative_keywords())
    ||| mentions(follow_up, arabic_negative())
}

/// The follow-up praises what was done.
pub open spec fn is_praise(follow_up: Seq<char>) -> bool {
    ||| mentions(text::ascii_lowered(follow_up), positive_keywords())
    ||| mentions(follow_up, arabic_positive())
}

/// The signal in a follow-up. A correction counts for more than praise.
pub open spec fn signal_of(follow_up: Seq<char>) -> OutcomeSignal {
    if is_correction(follow_up) {
        OutcomeSignal::Negative
    } else if is_praise(follow_up) {
        OutcomeSignal::Positive
    } else {
        OutcomeSignal::Neutral
    }
}

fn has_one(hay: &str, words: &[&str]) -> (r: bool)
    ensures
        r == mentions(hay@, words@.map_values(|w: &str| w@)),
{
    let ghost all = words@.map_values(|w: &str| w@);
    for k in 0..words.len()
        invariant
            all == words@.map_values(|w: &str| w@),
            forall|j: int| 0 <= j < k ==> !text::contains(hay@, #[trigger] all[j]),
    {
        if text::contains_text(hay, words[k]) {
            proof {
                assert(text::contains(hay@, all[k as int]));
            }
            return true;
        }
    }
    false
}

/// Infer an outcome signal from the user's follow-up message.
/// Keyword heuristic — supports both English and Arabic signals.
pub fn infer_signal(follow_up: &str) -> (r: OutcomeSignal)
    ensures
        r == signal_of(follow_up@),
{
    let lowered = text::ascii_lower_of(follow_up);

    // Check negative keywords first (higher priority for corrections)
    let negative = ["wrong", "no ", "not what", "incorrect", "didn't work", "broken", "fix ", "undo"];
    let negative_ar = ["غلط", "لا "];
    proof {
        assert(negative@.map_values(|w: &str| w@) =~= negative_keywords());
        assert(negative_ar@.map_values(|w: &str| w@) =~= arabic_negative());
    }
    if has_one(lowered.as_str(), &negative) || has_one(follow_up, &negative_ar) {
        return OutcomeSignal::Negative;
    }

    // Check positive keywords
    let positive = ["thanks", "thank you", "perfect", "great", "exactly", "worked", "awesome", "love it"];
    let positive_ar = ["شكرا", "ممتاز", "تمام"];
    proof {
        assert(positive@.map_values(|w: &str| w@) =~= positive_keywords());
        assert(positive_ar@.map_values(|w: &str| w@) =~= arabic_positive());
    }
    if has_one(lowered.as_str(), &positive) || has_one(follow_up, &positive_ar) {
        return OutcomeSignal::Positive;
    }

    OutcomeSignal::Neutral
}

/// A correction stays one whatever is said around it, praise included.
pub proof fn law_corrections_come_first(before: Seq<char>, follow_up: Seq<char>, after: Seq<char>)
    requires
        signal_of(follow_up) == OutcomeSignal::Negative,
    ensures
        signal_of(before + follow_up + after) == OutcomeSignal::Negative,
{
    text::lemma_ascii_lowered_around(before, follow_up, after);
    let lowered = text::ascii_lowered(follow_up);
    if mentions(lowered, negative_keywords()) {
        let k = choose|k: int|
            0 <= k < negative_keywords().len() && text::contains(
                lowered,
                #[trigger] negative_keywords()[k],
            );
        text::lemma_contains_within(
            text::ascii_lowered(before),
            lowered,
            text::ascii_lowered(after),
            negative_keywords()[k],
        );
    } else {
        let k = choose|k: int|
            0 <= k < arabic_negative().len() && text::contains(
                follow_up,
                #[trigger] arabic_negative()[k],
            );
        text::lemma_contains_within(before, follow_up, after, arabic_negative()[k]);
    }
}

/// A follow-up is a correction where it says one of these things, in any case of
/// the Latin letters. Otherwise it is praise where it says one of those, and it
/// says nothing of the outcome where it holds none of either.
pub proof fn law_signals_come_from_words(follow_up: Seq<char>)
    ensures
        ({
            let low = text::ascii_lowered(follow_up);
            let bad = text::contains(low, "wrong"@) || text::contains(low, "no "@)
                || text::contains(low, "not what"@) || text::contains(low, "incorrect"@)
                || text::contains(low, "didn't work"@) || text::contains(low, "broken"@)
                || text::contains(low, "fix "@) || text::contains(low, "undo"@) || text::contains(
                follow_up,
                "غلط"@,
            ) || text::contains(follow_up, "لا "@);
            let good = text::contains(low, "thanks"@) || text::contains(low, "thank you"@)
                || text::contains(low, "perfect"@) || text::contains(low, "great"@)
                || text::contains(low, "exactly"@) || text::contains(low, "worked"@)
                || text::contains(low, "awesome"@) || text::contains(low, "love it"@)
                || text::contains(follow_up, "شكرا"@) || text::contains(follow_up, "ممتاز"@)
                || text::contains(follow_up, "تمام"@);
            &&& signal_of(follow_up) == OutcomeSignal::Negative <==> bad
            &&& signal_of(follow_up) == OutcomeSignal::Positive <==> good && !bad
            &&& signal_of(follow_up) == OutcomeSignal::Neutral <==> !good && !bad
        }),
{
    let n = negative_keywords();
    assert(n[0] == "wrong"@ && n[1] == "no "@ && n[2] == "not what"@ && n[3] == "incorrect"@ && n[4]
        == "didn't work"@ && n[5] == "broken"@ && n[6] == "fix "@ && n[7] == "undo"@);
    let p = positive_keywords();
    assert(p[0] == "thanks"@ && p[1] == "thank you"@ && p[2] == "perfect"@ && p[3] == "great"@
        && p[4] == "exactly"@ && p[5] == "worked"@ && p[6] == "awesome"@ && p[7] == "love it"@);
    let an = arabic_negative();
    assert(an[0] == "غلط"@ && an[1] == "لا "@);
    let ap = arabic_positive();
    assert(ap[0] == "شكرا"@ && ap[1] == "ممتاز"@ && ap[2] == "تمام"@);
}

} // verus!
