//! Which model a message is for: hints by configured rules, and an estimate of
//! how complex the message is.

use crate::config::schema::{ClassificationRule, QueryClassificationConfig};
use crate::text;
use vstd::prelude::*;

verus! {

#[derive(Debug, Clone, PartialEq, Eq)]
pub struct ClassificationDecision {
    pub hint: String,
    pub priority: i32,
}

/// The message is neither too short nor too long for the rule.
pub open spec fn fits_length(rule: ClassificationRule, message: Seq<char>) -> bool {
    let n = text::byte_len(message);
    &&& (rule.min_length matches Some(min) ==> min <= n)
    &&& (rule.max_length matches Some(max) ==> n <= max)
}

/// One of `words` stands in `hay`.
pub open spec fn contains_one(hay: Seq<char>, words: Seq<Seq<char>>) -> bool {
    exists|k: int| 0 <= k < words.len() && text::contains(hay, #[trigger] words[k])
}

/// The rule matches the message, where `lower` is the message in lower case and
/// `keywords` are the rule's keywords in lower case.
pub open spec fn rule_matches(
    rule: ClassificationRule,
    message: Seq<char>,
    lower: Seq<char>,
    keywords: Seq<Seq<char>>,
) -> bool {
    &&& fits_length(rule, message)
    &&& contains_one(lower, keywords) || contains_one(message, text::views(rule.patterns@))
}

/// Rule `i` decides: it matches, and no matching rule has a higher priority, nor
/// the same one and an earlier place.
pub open spec fn decides(
    rules: Seq<ClassificationRule>,
    message: Seq<char>,
    lower: Seq<char>,
    keywords: Seq<Seq<Seq<char>>>,
    i: int,
) -> bool {
    &&& 0 <= i < rules.len()
    &&& rule_matches(rules[i], message, lower, keywords[i])
    &&& forall|j: int|
        0 <= j < rules.len() && rule_matches(#[trigger] rules[j], message, lower, keywords[j])
            ==> rules[j].priority < rules[i].priority || (rules[j].priority == rules[i].priority
            && i <= j)
}

/// The decision over a message: that of the rule that decides, where the
/// classification is enabled and some rule matches.
pub open spec fn is_decision(
    config: QueryClassificationConfig,
    message: Seq<char>,
    lower: Seq<char>,
    keywords: Seq<Seq<Seq<char>>>,
    r: Option<ClassificationDecision>,
) -> bool {
    let rules = config.rules@;
    match r {
        Some(d) => config.enabled && exists|i: int| #[trigger]
            decides(rules, message, lower, keywords, i) && d.hint@ == rules[i].hint@ && d.priority
                == rules[i].priority,
        None => !config.enabled || forall|j: int|
            0 <= j < rules.len() ==> !rule_matches(
                #[trigger] rules[j],
                message,
                lower,
                keywords[j],
            ),
    }
}

/// The keywords of each rule in lower case.
pub open spec fn lowered_keywords(rules: Seq<ClassificationRule>) -> Seq<Seq<Seq<char>>> {
    Seq::new(
        rules.len(),
        |i: int|
            Seq::new(
                rules[i].keywords@.len(),
                |k: int| text::unicode_lower(rules[i].keywords@[k]@),
            ),
    )
}

/// The views of lists of texts.
pub open spec fn list_views(lists: Seq<Vec<String>>) -> Seq<Seq<Seq<char>>> {
    lists.map_values(|l: Vec<String>| text::views(l@))
}

fn has_one(hay: &str, words: &Vec<String>) -> (r: bool)
    ensures
        r == contains_one(hay@, text::views(words@)),
{
    let cs = text::chars_of(hay);
    let ghost all = text::views(words@);
    for k in 0..words.len()
        invariant
            cs@ == hay@,
            all == text::views(words@),
            forall|m: int| 0 <= m < k ==> !text::contains(hay@, #[trigger] all[m]),
    {
        if text::contains_chars(&cs, words[k].as_str()) {
            proof {
                assert(text::contains(hay@, all[k as int]));
            }
            return true;
        }
    }
    false
}

/// Decides over a message, given it and the keywords of each rule in lower
/// case.
pub fn decide(
    config: &QueryClassificationConfig,
    message: &str,
    lower: &str,
    keywords: &Vec<Vec<String>>,
) -> (r: Option<ClassificationDecision>)
    requires
        keywords@.len() == config.rules@.len(),
    ensures
        is_decision(*config, message@, lower@, list_views(keywords@), r),
{
    if !config.enabled {
        return None;
    }
    let ghost rules = config.rules@;
    let ghost words = list_views(keywords@);
    let len: usize = text::byte_length(message);
    let mut best: Option<usize> = None;
    for i in 0..config.rules.len()
        invariant
            rules == config.rules@,
            words == list_views(keywords@),
            keywords@.len() == rules.len(),
            len == text::byte_len(message@),
            match best {
                Some(b) => {
                    &&& b < i
                    &&& rule_matches(rules[b as int], message@, lower@, words[b as int])
                    &&& forall|j: int|
                        0 <= j < i && rule_matches(#[trigger] rules[j], message@, lower@, words[j])
                            ==> rules[j].priority < rules[b as int].priority || (rules[j].priority
                            == rules[b as int].priority && b <= j)
                },
                None => forall|j: int|
                    0 <= j < i ==> !rule_matches(#[trigger] rules[j], message@, lower@, words[j]),
            },
    {
        let rule = &config.rules[i];
        let long_enough = match rule.min_length {
            Some(min) => len >= min,
            None => true,
        };
        let short_enough = match rule.max_length {
            Some(max) => len <= max,
            None => true,
        };
        proof {
            assert(words[i as int] == text::views(keywords@[i as int]@));
        }
        if long_enough && short_enough && (has_one(lower, &keywords[i]) || has_one(
            message,
            &rule.patterns,
        )) {
            let better = match best {
                Some(b) => config.rules[b].priority < rule.priority,
                None => true,
            };
            if better {
                best = Some(i);
            }
        }
    }
    match best {
        Some(b) => {
            proof {
                assert(decides(rules, message@, lower@, words, b as int));
            }
            Some(
                ClassificationDecision {
                    hint: config.rules[b].hint.clone(),
                    priority: config.rules[b].priority,
                },
            )
        },
        None => None,
    }
}

/// Classify a user message and return the matched hint together with
/// match metadata for observability.
pub fn classify_with_decision(config: &QueryClassificationConfig, message: &str) -> (r: Option<
    ClassificationDecision,
>)
    ensures
        is_decision(
            *config,
            message@,
            text::unicode_lower(message@),
            lowered_keywords(config.rules@),
            r,
        ),
{
    if !config.enabled {
        return None;
    }
    let lower = message.to_lowercase();
    let mut keywords: Vec<Vec<String>> = Vec::new();
    for i in 0..config.rules.len()
        invariant
            keywords@.len() == i,
            forall|m: int|
                0 <= m < i ==> text::views((#[trigger] keywords@[m])@) == lowered_keywords(
                    config.rules@,
                )[m],
    {
        let rule = &config.rules[i];
        let mut words: Vec<String> = Vec::new();
        for k in 0..rule.keywords.len()
            invariant
                *rule == config.rules@[i as int],
                words@.len() == k,
                forall|m: int|
                    0 <= m < k ==> (#[trigger] words@[m])@ == text::unicode_lower(
                        rule.keywords@[m]@,
                    ),
        {
            words.push(rule.keywords[k].as_str().to_lowercase());
        }
        proof {
            assert(text::views(words@) =~= lowered_keywords(config.rules@)[i as int]);
        }
        keywords.push(words);
    }
    proof {
        assert(list_views(keywords@) =~= lowered_keywords(config.rules@));
    }
    decide(config, message, lower.as_str(), &keywords)
}

/// Classify a user message against the configured rules and return the
/// matching hint string, if any.
///
/// Returns `None` when classification is disabled, no rules are configured,
/// or no rule matches the message.
pub fn classify(config: &QueryClassificationConfig, message: &str) -> (r: Option<String>)
    ensures
        exists|d: Option<ClassificationDecision>| #[trigger]
            is_decision(
                *config,
                message@,
                text::unicode_lower(message@),
                lowered_keywords(config.rules@),
                d,
            ) && match d {
                Some(d) => r matches Some(hint) && hint@ == d.hint@,
                None => r is None,
            },
{
    let decision = classify_with_decision(config, message);
    let ghost d = decision;
    match decision {
        Some(decision) => {
            proof {
                assert(is_decision(
                    *config,
                    message@,
                    text::unicode_lower(message@),
                    lowered_keywords(config.rules@),
                    d,
                ));
            }
            Some(decision.hint)
        },
        None => {
            proof {
                assert(is_decision(
                    *config,
                    message@,
                    text::unicode_lower(message@),
                    lowered_keywords(config.rules@),
                    d,
                ));
            }
            None
        },
    }
}

/// All decisions over one message say the same.
pub proof fn law_decision_is_unique(
    config: QueryClassificationConfig,
    message: Seq<char>,
    lower: Seq<char>,
    keywords: Seq<Seq<Seq<char>>>,
    a: Option<ClassificationDecision>,
    b: Option<ClassificationDecision>,
)
    requires
        is_decision(config, message, lower, keywords, a),
        is_decision(config, message, lower, keywords, b),
    ensures
        a is Some <==> b is Some,
        a is Some ==> a->0.hint@ == b->0.hint@ && a->0.priority == b->0.priority,
{
    let rules = config.rules@;
    if a is Some {
        let i = choose|i: int| #[trigger]
            decides(rules, message, lower, keywords, i) && a->0.hint@ == rules[i].hint@
                && a->0.priority == rules[i].priority;
        assert(rule_matches(rules[i], message, lower, keywords[i]));
    }
    if b is Some {
        let j = choose|j: int| #[trigger]
            decides(rules, message, lower, keywords, j) && b->0.hint@ == rules[j].hint@
                && b->0.priority == rules[j].priority;
        assert(rule_matches(rules[j], message, lower, keywords[j]));
    }
}

// ---------------------------------------------------------------------------
// Complexity
// ---------------------------------------------------------------------------

/// Words that point to a complex task.
pub open spec fn complex_words() -> Seq<Seq<char>> {
    seq![
        "refactor"@,
        "architect"@,
        "design"@,
        "debug"@,
        "optimize"@,
        "implement"@,
        "migrate"@,
        "security"@,
        "performance"@,
        "concurrent"@,
    ]
}

/// Words that point to a simple task.
pub open spec fn simple_words() -> Seq<Seq<char>> {
    seq![
        "list"@,
        "show"@,
        "what is"@,
        "how to"@,
        "explain"@,
        "summarize"@,
        "read"@,
        "find"@,
        "search"@,
        "check"@,
    ]
}

/// How many of `words` stand in `hay`.
pub open spec fn hits(hay: Seq<char>, words: Seq<Seq<char>>) -> nat
    decreases words.len(),
{
    if words.len() == 0 {
        0
    } else {
        hits(hay, words.drop_last()) + if text::contains(hay, words.last()) {
            1nat
        } else {
            0nat
        }
    }
}

/// How often `c` stands in `s`.
pub open spec fn occurrences(s: Seq<char>, c: char) -> nat
    decreases s.len(),
{
    if s.len() == 0 {
        0
    } else {
        occurrences(s.drop_last(), c) + if s.last() == c {
            1nat
        } else {
            0nat
        }
    }
}

/// Points for the length of a message.
pub open spec fn length_points(n: nat) -> int {
    if n > 2000 {
        30
    } else if n > 500 {
        15
    } else if n > 100 {
        5
    } else {
        0
    }
}

/// The smaller one of two numbers.
pub open spec fn least(a: int, b: int) -> int {
    if a <= b {
        a
    } else {
        b
    }
}

/// The complexity of a message, where `lower` is the message in lower case:
/// points for its length, 10 for each complex word, 5 off for each simple one
/// but not below zero, 5 for each of up to three question marks, and 15 for a
/// code block; at most 100.
pub open spec fn complexity(message: Seq<char>, lower: Seq<char>) -> int {
    let weight = length_points(text::byte_len(message)) + 10 * hits(lower, complex_words()) - 5
        * hits(lower, simple_words());
    let floor = if weight < 0 {
        0
    } else {
        weight
    };
    let asked = floor + 5 * least(occurrences(message, '?') as int, 3);
    least(
        if text::contains(message, "```"@) {
            asked + 15
        } else {
            asked
        },
        100,
    )
}

/// The views of texts.
pub open spec fn str_views(words: Seq<&str>) -> Seq<Seq<char>> {
    words.map_values(|w: &str| w@)
}

fn count_hits(hay: &str, words: &[&str]) -> (r: u32)
    requires
        words@.len() <= 1000,
    ensures
        r == hits(hay@, str_views(words@)),
        r <= words@.len(),
{
    let cs = text::chars_of(hay);
    let ghost all = str_views(words@);
    let mut n: u32 = 0;
    for k in 0..words.len()
        invariant
            cs@ == hay@,
            all == str_views(words@),
            words@.len() <= 1000,
            n <= k,
            n == hits(hay@, all.take(k as int)),
    {
        proof {
            assert(all.take(k + 1).drop_last() =~= all.take(k as int));
            assert(all.take(k + 1).last() == words@[k as int]@);
        }
        if text::contains_chars(&cs, words[k]) {
            n = n + 1;
        }
    }
    proof {
        assert(all.take(all.len() as int) =~= all);
    }
    n
}

fn count_questions(message: &str) -> (r: u32)
    ensures
        r == least(occurrences(message@, '?') as int, 3),
{
    let cs = text::chars_of(message);
    let mut n: u32 = 0;
    for i in 0..cs.len()
        invariant
            cs@ == message@,
            n == least(occurrences(message@.take(i as int), '?') as int, 3),
    {
        proof {
            assert(message@.take(i + 1).drop_last() =~= message@.take(i as int));
            assert(message@.take(i + 1).last() == cs@[i as int]);
        }
        if cs[i] == '?' && n < 3 {
            n = n + 1;
        }
    }
    proof {
        assert(message@.take(cs@.len() as int) =~= message@);
    }
    n
}

/// The complexity of a message, given it in lower case.
pub fn complexity_of(message: &str, lower: &str) -> (r: u32)
    ensures
        r == complexity(message@, lower@),
        r <= 100,
{
    let len: usize = text::byte_length(message);
    // Length-based: longer messages tend to be more complex
    let base: u32 = if len > 2000 {
        30
    } else if len > 500 {
        15
    } else if len > 100 {
        5
    } else {
        0
    };
    // Code-related keywords suggest higher complexity
    let complex: [&str; 10] = [
        "refactor",
        "architect",
        "design",
        "debug",
        "optimize",
        "implement",
        "migrate",
        "security",
        "performance",
        "concurrent",
    ];
    // Simple task keywords
    let simple: [&str; 10] = [
        "list",
        "show",
        "what is",
        "how to",
        "explain",
        "summarize",
        "read",
        "find",
        "search",
        "check",
    ];
    proof {
        assert(str_views(complex@) =~= complex_words());
        assert(str_views(simple@) =~= simple_words());
    }
    let up: u32 = base + 10 * count_hits(lower, complex.as_slice());
    let down: u32 = 5 * count_hits(lower, simple.as_slice());
    let floor: u32 = if up < down {
        0
    } else {
        up - down
    };
    // Multiple questions or requirements increase complexity
    let asked: u32 = floor + 5 * count_questions(message);
    // Code blocks suggest complexity
    let score: u32 = if text::contains_text(message, "```") {
        asked + 15
    } else {
        asked
    };
    if score <= 100 {
        score
    } else {
        100
    }
}

/// Estimate message complexity on a scale of 0-100.
/// Used for dynamic model routing — simple tasks go to cheap models.
pub fn estimate_complexity(message: &str) -> (r: u32)
    ensures
        r == complexity(message@, text::unicode_lower(message@)),
        r <= 100,
        text::all_ascii(message@) ==> r == complexity(message@, text::ascii_lowered(message@)),
{
    let lower = message.to_lowercase();
    complexity_of(message, lower.as_str())
}

/// One where `word` stands in `hay`, otherwise zero.
pub open spec fn mark(hay: Seq<char>, word: Seq<char>) -> int {
    if text::contains(hay, word) {
        1
    } else {
        0
    }
}

/// The complexity of a message is its points between zero and 100: each of ten
/// words makes ten points, each of ten others takes five off but never below the
/// start, each question mark makes five for up to three of them, and a code block
/// makes fifteen.
pub proof fn law_complexity_adds_up(message: Seq<char>, lower: Seq<char>)
    ensures
        ({
            let up = mark(lower, "refactor"@)
                + mark(lower, "architect"@)
                + mark(lower, "design"@)
                + mark(lower, "debug"@)
                + mark(lower, "optimize"@)
                + mark(lower, "implement"@)
                + mark(lower, "migrate"@)
                + mark(lower, "security"@)
                + mark(lower, "performance"@)
                + mark(lower, "concurrent"@);
            let down = mark(lower, "list"@)
                + mark(lower, "show"@)
                + mark(lower, "what is"@)
                + mark(lower, "how to"@)
                + mark(lower, "explain"@)
                + mark(lower, "summarize"@)
                + mark(lower, "read"@)
                + mark(lower, "find"@)
                + mark(lower, "search"@)
                + mark(lower, "check"@);
            let start = length_points(text::byte_len(message)) + 10 * up - 5 * down;
            let floor = if start > 0 {
                start
            } else {
                0
            };
            let marks = occurrences(message, '?') as int;
            let asked = 5 * if marks < 3 {
                marks
            } else {
                3
            };
            let code = 15 * mark(message, "```"@);
            let sum = floor + asked + code;
            &&& sum <= 100 ==> complexity(message, lower) == sum
            &&& sum > 100 ==> complexity(message, lower) == 100
            &&& 0 <= complexity(message, lower) <= 100
        }),
{
    lemma_ten_hits(lower, complex_words());
    lemma_ten_hits(lower, simple_words());
}

proof fn lemma_ten_hits(hay: Seq<char>, w: Seq<Seq<char>>)
    requires
        w.len() == 10,
    ensures
        hits(hay, w) == mark(hay, w[0]) + mark(hay, w[1]) + mark(hay, w[2]) + mark(hay, w[3])
            + mark(hay, w[4]) + mark(hay, w[5]) + mark(hay, w[6]) + mark(hay, w[7]) + mark(
            hay,
            w[8],
        ) + mark(hay, w[9]),
{
    assert(w.take(10) =~= w);
    lemma_hits_step(hay, w, 9);
    lemma_hits_step(hay, w, 8);
    lemma_hits_step(hay, w, 7);
    lemma_hits_step(hay, w, 6);
    lemma_hits_step(hay, w, 5);
    lemma_hits_step(hay, w, 4);
    lemma_hits_step(hay, w, 3);
    lemma_hits_step(hay, w, 2);
    lemma_hits_step(hay, w, 1);
    lemma_hits_step(hay, w, 0);
    assert(w.take(0).len() == 0);
}

proof fn lemma_hits_step(hay: Seq<char>, w: Seq<Seq<char>>, k: int)
    requires
        0 <= k < w.len(),
    ensures
        hits(hay, w.take(k + 1)) == hits(hay, w.take(k)) + mark(hay, w[k]),
{
    assert(w.take(k + 1).drop_last() =~= w.take(k));
}

/// The length of a message makes 30 points above 2000 bytes, fifteen above 500,
/// five above 100 and none up to that; so longer ones never make fewer.
pub proof fn law_length_makes_points(n: nat, more: nat)
    requires
        n <= more,
    ensures
        n <= 100 <==> length_points(n) == 0,
        100 < n <= 500 <==> length_points(n) == 5,
        500 < n <= 2000 <==> length_points(n) == 15,
        2000 < n <==> length_points(n) == 30,
        length_points(n) <= length_points(more),
{
}

/// The occurrences of a character in two texts, one after the other, add up; a
/// text of just that character has one.
pub proof fn law_occurrences_add_up(a: Seq<char>, b: Seq<char>, c: char)
    ensures
        occurrences(a + b, c) == occurrences(a, c) + occurrences(b, c),
        occurrences(seq![c], c) == 1,
        !a.contains(c) ==> occurrences(a, c) == 0,
    decreases a.len() + b.len(),
{
    assert(seq![c].drop_last() =~= Seq::<char>::empty());
    assert(occurrences(seq![c], c) == 1) by {
        assert(occurrences(Seq::<char>::empty(), c) == 0);
    }
    if b.len() == 0 {
        assert(a + b =~= a);
        if a.len() > 0 {
            law_occurrences_add_up(a.drop_last(), b, c);
            if !a.contains(c) {
                assert(a[a.len() - 1] != c);
                assert(!a.drop_last().contains(c)) by {
                    if a.drop_last().contains(c) {
                        let i = choose|i: int| 0 <= i < a.len() - 1 && a.drop_last()[i] == c;
                        assert(a[i] == c);
                    }
                }
            }
        }
    } else {
        law_occurrences_add_up(a, b.drop_last(), c);
        assert((a + b).drop_last() =~= a + b.drop_last());
    }
}

/// A rule fits a message exactly where the message is within its lengths, in
/// bytes, and one of its keywords stands in the message regardless of case, or
/// one of its patterns as it is written.
pub proof fn law_rules_fit_by_length_and_words(
    rule: ClassificationRule,
    message: Seq<char>,
    lower: Seq<char>,
    keywords: Seq<Seq<char>>,
)
    ensures
        rule_matches(rule, message, lower, keywords) <==> {
            &&& rule.min_length is Some ==> text::byte_len(message) >= rule.min_length->0
            &&& rule.max_length is Some ==> text::byte_len(message) <= rule.max_length->0
            &&& (exists|k: int, a: Seq<char>, b: Seq<char>|
                0 <= k < keywords.len() && #[trigger] (a + keywords[k] + b) == lower) || (exists|
                k: int,
                a: Seq<char>,
                b: Seq<char>,
            |
                0 <= k < rule.patterns@.len() && #[trigger] (a + rule.patterns@[k]@ + b) == message)
        },
{
    let patterns = text::views(rule.patterns@);
    assert(patterns.len() == rule.patterns@.len());
    if contains_one(lower, keywords) {
        let k = choose|k: int|
            0 <= k < keywords.len() && text::contains(lower, #[trigger] keywords[k]);
        text::law_found_texts_stand_within(lower, keywords[k]);
        let (a, b) = choose|a: Seq<char>, b: Seq<char>| #[trigger] (a + keywords[k] + b) == lower;
        assert(a + keywords[k] + b == lower);
    }
    if contains_one(message, patterns) {
        let k = choose|k: int|
            0 <= k < patterns.len() && text::contains(message, #[trigger] patterns[k]);
        assert(patterns[k] == rule.patterns@[k]@);
        text::law_found_texts_stand_within(message, patterns[k]);
        let (a, b) = choose|a: Seq<char>, b: Seq<char>| #[trigger] (a + patterns[k] + b) == message;
        assert(a + rule.patterns@[k]@ + b == message);
    }
    if exists|k: int, a: Seq<char>, b: Seq<char>|
        0 <= k < keywords.len() && #[trigger] (a + keywords[k] + b) == lower {
        let (k, a, b) = choose|k: int, a: Seq<char>, b: Seq<char>|
            0 <= k < keywords.len() && #[trigger] (a + keywords[k] + b) == lower;
        text::law_found_texts_stand_within(lower, keywords[k]);
        assert(contains_one(lower, keywords));
    }
    if exists|k: int, a: Seq<char>, b: Seq<char>|
        0 <= k < rule.patterns@.len() && #[trigger] (a + rule.patterns@[k]@ + b) == message {
        let (k, a, b) = choose|k: int, a: Seq<char>, b: Seq<char>|
            0 <= k < rule.patterns@.len() && #[trigger] (a + rule.patterns@[k]@ + b) == message;
        assert(patterns[k] == rule.patterns@[k]@);
        text::law_found_texts_stand_within(message, patterns[k]);
        assert(contains_one(message, patterns));
    }
}

/// Of the rules that fit, the one of the highest priority decides, and of several
/// such the first; without one that fits, or where the classification is off,
/// there is no decision.
pub proof fn law_the_highest_priority_decides(
    config: QueryClassificationConfig,
    message: Seq<char>,
    lower: Seq<char>,
    keywords: Seq<Seq<Seq<char>>>,
    r: Option<ClassificationDecision>,
    j: int,
)
    requires
        is_decision(config, message, lower, keywords, r),
        0 <= j < config.rules@.len(),
        rule_matches(config.rules@[j], message, lower, keywords[j]),
    ensures
        r is Some <==> config.enabled,
        r matches Some(d) ==> d.priority >= config.rules@[j].priority,
        r is Some && r->0.priority == config.rules@[j].priority && (forall|i: int|
            0 <= i < j && rule_matches(
                #[trigger] config.rules@[i],
                message,
                lower,
                keywords[i],
            ) ==> config.rules@[i].priority < config.rules@[j].priority) ==> r->0.hint@
            == config.rules@[j].hint@,
{
    let rules = config.rules@;
    if let Some(d) = r {
        let i = choose|i: int| #[trigger]
            decides(rules, message, lower, keywords, i) && d.hint@ == rules[i].hint@ && d.priority
                == rules[i].priority;
        assert(rule_matches(rules[i], message, lower, keywords[i]));
    }
}

/// The keywords of every rule are looked for in lower case, each in its place.
pub proof fn law_keywords_are_looked_for_in_lower_case(
    rules: Seq<ClassificationRule>,
    i: int,
    k: int,
)
    requires
        0 <= i < rules.len(),
        0 <= k < rules[i].keywords@.len(),
    ensures
        lowered_keywords(rules).len() == rules.len(),
        lowered_keywords(rules)[i].len() == rules[i].keywords@.len(),
        lowered_keywords(rules)[i][k] == text::unicode_lower(rules[i].keywords@[k]@),
{
}

} // verus!
