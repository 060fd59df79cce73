//! Semantic skill discovery using keyword matching.

use crate::skills::Skill;
use crate::sorting;
use crate::sorting::Descending;
use crate::text;
use vstd::prelude::*;

verus! {

/// The text of a skill that is searched besides its name and tags: its
/// description and its prompts.
pub open spec fn index_content(skill: Skill) -> Seq<char> {
    text::join(seq![skill.description@] + text::views(skill.prompts@), " "@)
}

/// Convert a skill into indexable fields.
/// Returns (title=name, content=description+prompts, tags).
pub fn skill_to_index_entry(skill: &Skill) -> (r: (String, String, Vec<String>))
    ensures
        r.0@ == skill.name@,
        r.1@ == index_content(*skill),
        text::views(r.2@) == text::views(skill.tags@),
{
    let ghost wanted = seq![skill.description@] + text::views(skill.prompts@);
    let mut parts: Vec<String> = Vec::new();
    parts.push(skill.description.clone());
    proof {
        assert(text::views(parts@) =~= wanted.take(1));
    }
    for i in 0..skill.prompts.len()
        invariant
            wanted == seq![skill.description@] + text::views(skill.prompts@),
            text::views(parts@) == wanted.take(i + 1),
    {
        let ghost before = text::views(parts@);
        parts.push(skill.prompts[i].clone());
        proof {
            assert(wanted[i + 1] == skill.prompts@[i as int]@);
            assert(text::views(parts@) =~= before.push(wanted[i + 1]));
            assert(wanted.take(i + 2) =~= before.push(wanted[i + 1]));
        }
    }
    proof {
        assert(wanted.take(wanted.len() as int) =~= wanted);
    }
    (skill.name.clone(), text::joined(&parts, " "), text::copied_strings(&skill.tags))
}

/// How much of a query a text answers: `matches` of its `total` terms. Where
/// there are none the relevance is zero.
#[derive(Debug, Clone, Copy, PartialEq, Eq, Structural)]
pub struct Relevance {
    pub matches: usize,
    pub total: usize,
}

/// How many of the terms stand in the text.
pub open spec fn count_in(terms: Seq<Seq<char>>, hay: Seq<char>) -> nat
    decreases terms.len(),
{
    if terms.len() == 0 {
        0
    } else {
        count_in(terms.drop_last(), hay) + if text::contains(hay, terms.last()) {
            1nat
        } else {
            0nat
        }
    }
}

/// How many of the terms stand in the text, letter case aside.
pub open spec fn count_matches(terms: Seq<Seq<char>>, skill_text: Seq<char>) -> nat {
    count_in(
        terms.map_values(|t: Seq<char>| text::unicode_lower(t)),
        text::unicode_lower(skill_text),
    )
}

/// How much of a query a text answers, given its terms and the text in lower
/// case.
pub fn relevance_of_lowered(terms: &Vec<String>, lower_text: &str) -> (r: Relevance)
    ensures
        r.total == terms@.len(),
        r.matches == count_in(text::views(terms@), lower_text@),
        r.matches <= r.total,
{
    let ghost all = text::views(terms@);
    let mut matches: usize = 0;
    proof {
        assert(all.take(0) =~= Seq::<Seq<char>>::empty());
    }
    for i in 0..terms.len()
        invariant
            all == text::views(terms@),
            matches == count_in(all.take(i as int), lower_text@),
            matches <= i,
    {
        proof {
            assert(all.take(i + 1).drop_last() =~= all.take(i as int));
            assert(all.take(i + 1).last() == terms@[i as int]@);
        }
        if text::contains_text(lower_text, terms[i].as_str()) {
            matches = matches + 1;
        }
    }
    proof {
        assert(all.take(all.len() as int) =~= all);
    }
    Relevance { matches, total: terms.len() }
}

/// What borrowed texts say.
pub open spec fn term_views(terms: Seq<&str>) -> Seq<Seq<char>> {
    terms.map_values(|t: &str| t@)
}

/// Keyword relevance score between query terms and skill text.
/// Counts how many query terms appear in lowercased skill_text.
pub fn keyword_relevance(query_terms: &[&str], skill_text: &str) -> (r: Relevance)
    ensures
        r.total == query_terms@.len(),
        r.matches == count_matches(term_views(query_terms@), skill_text@),
        r.matches <= r.total,
        text::all_ascii(skill_text@) && (forall|k: int|
            0 <= k < query_terms@.len() ==> text::all_ascii((#[trigger] query_terms@[k])@))
            ==> r.matches == count_in(
            term_views(query_terms@).map_values(|t: Seq<char>| text::ascii_lowered(t)),
            text::ascii_lowered(skill_text@),
        ),
{
    let lower_text = skill_text.to_lowercase();
    let mut terms: Vec<String> = Vec::new();
    for i in 0..query_terms.len()
        invariant
            terms@.len() == i,
            forall|k: int|
                0 <= k < i ==> (#[trigger] terms@[k])@ == text::unicode_lower(query_terms@[k]@),
            forall|k: int|
                0 <= k < i && text::all_ascii(query_terms@[k]@) ==> (#[trigger] terms@[k])@
                    == text::ascii_lowered(query_terms@[k]@),
    {
        terms.push(query_terms[i].to_lowercase());
    }
    proof {
        let views = text::views(terms@);
        let all = term_views(query_terms@);
        assert(views =~= all.map_values(|t: Seq<char>| text::unicode_lower(t)));
        if forall|k: int|
            0 <= k < query_terms@.len() ==> text::all_ascii((#[trigger] query_terms@[k])@) {
            assert(views =~= all.map_values(|t: Seq<char>| text::ascii_lowered(t)));
        }
    }
    relevance_of_lowered(&terms, lower_text.as_str())
}

/// The text of a skill in which a query is searched.
pub open spec fn searchable(skill: Skill) -> Seq<char> {
    skill.name@ + " "@ + index_content(skill) + " "@ + text::join(
        text::views(skill.tags@),
        " "@,
    )
}

/// How much of the query a skill answers.
pub open spec fn relevance(query: Seq<char>, skill: Skill) -> Relevance {
    Relevance {
        matches: count_matches(text::words(query), searchable(skill)) as usize,
        total: text::words(query).len() as usize,
    }
}

/// How much of the query each of the skills answers.
pub open spec fn relevances(query: Seq<char>, skills: Seq<Skill>) -> Seq<Relevance> {
    skills.map_values(|s: Skill| relevance(query, s))
}

/// The scores as keys that put the highest first.
pub open spec fn score_keys(scores: Seq<Relevance>) -> Seq<Descending<u64>> {
    scores.map_values(|r: Relevance| Descending(r.matches as u64))
}

/// `found` are the best of the skills by their scores: by falling score, those
/// of one score in the order in which they stand, as many as are asked for, and
/// none that answers no term. `order` are the places of all skills in that
/// order.
pub open spec fn are_best(
    skills: Seq<Skill>,
    scores: Seq<Relevance>,
    top_k: usize,
    found: Seq<(&Skill, Relevance)>,
    order: Seq<usize>,
) -> bool {
    &&& sorting::is_stable_order(score_keys(scores), order)
    &&& found.len() <= top_k
    &&& found.len() <= order.len()
    &&& forall|k: int|
        0 <= k < found.len() ==> {
            &&& *(#[trigger] found[k]).0 == skills[order[k] as int]
            &&& found[k].1 == scores[order[k] as int]
            &&& found[k].1.matches > 0
        }
    &&& found.len() < top_k && found.len() < order.len()
        ==> scores[order[found.len() as int] as int].matches == 0
}

/// The best of the skills, given how much of the query each of them answers.
pub fn best_scored<'a>(skills: &'a [Skill], scores: &Vec<Relevance>, top_k: usize) -> (r: Vec<
    (&'a Skill, Relevance),
>)
    requires
        scores@.len() == skills@.len(),
    ensures
        exists|order: Seq<usize>| #[trigger] are_best(skills@, scores@, top_k, r@, order),
{
    let mut keys: Vec<Descending<u64>> = Vec::new();
    let ghost wanted = score_keys(scores@);
    for i in 0..scores.len()
        invariant
            wanted == score_keys(scores@),
            keys@ == wanted.take(i as int),
    {
        keys.push(Descending(scores[i].matches as u64));
        proof {
            assert(wanted.take(i + 1) =~= wanted.take(i as int).push(wanted[i as int]));
        }
    }
    proof {
        assert(wanted.take(wanted.len() as int) =~= wanted);
    }
    let order = sorting::order_of(&keys);
    let mut r: Vec<(&'a Skill, Relevance)> = Vec::new();
    let mut k: usize = 0;
    while k < order.len() && k < top_k && scores[order[k]].matches > 0
        invariant
            sorting::is_arrangement(order@, skills@.len() as int),
            scores@.len() == skills@.len(),
            r@.len() == k,
            k <= order@.len(),
            k <= top_k,
            forall|m: int|
                0 <= m < k ==> {
                    &&& *(#[trigger] r@[m]).0 == skills@[order@[m] as int]
                    &&& r@[m].1 == scores@[order@[m] as int]
                    &&& r@[m].1.matches > 0
                },
        decreases order@.len() - k,
    {
        let place: usize = order[k];
        r.push((&skills[place], scores[place]));
        k = k + 1;
    }
    proof {
        if k < order@.len() {
            assert(order@[k as int] < skills@.len());
        }
        assert(are_best(skills@, scores@, top_k, r@, order@));
    }
    r
}

/// Find the best matching skills for a user query.
/// Splits query into terms, scores each skill by combining name + description + tags,
/// sorts by score descending, truncates to top_k, and filters out zero scores.
pub fn find_relevant_skills<'a>(query: &str, skills: &'a [Skill], top_k: usize) -> (r: Vec<
    (&'a Skill, Relevance),
>)
    ensures
        exists|order: Seq<usize>| #[trigger]
            are_best(skills@, relevances(query@, skills@), top_k, r@, order),
{
    let terms = text::split_words(query);
    let n: usize = terms.len();
    let mut words: Vec<&str> = Vec::new();
    for i in 0..n
        invariant
            n == terms@.len(),
            words@.len() == i,
            forall|k: int| 0 <= k < i ==> (#[trigger] words@[k])@ == terms@[k]@,
    {
        words.push(terms[i].as_str());
    }
    proof {
        assert(term_views(words@) =~= text::views(terms@));
    }
    let mut scores: Vec<Relevance> = Vec::new();
    let ghost wanted = relevances(query@, skills@);
    for i in 0..skills.len()
        invariant
            term_views(words@) == text::words(query@),
            wanted == relevances(query@, skills@),
            scores@ == wanted.take(i as int),
    {
        let (title, content, tags) = skill_to_index_entry(&skills[i]);
        let joined = text::joined(&tags, " ");
        let whole = text::cat5(title.as_str(), " ", content.as_str(), " ", joined.as_str());
        proof {
            assert(whole@ == searchable(skills@[i as int]));
            assert(term_views(words@).len() == words@.len());
        }
        let score = keyword_relevance(words.as_slice(), whole.as_str());
        scores.push(score);
        proof {
            assert(score == wanted[i as int]);
            assert(wanted.take(i + 1) =~= wanted.take(i as int).push(wanted[i as int]));
        }
    }
    proof {
        assert(wanted.take(wanted.len() as int) =~= wanted);
    }
    best_scored(skills, &scores, top_k)
}

/// The skills found come by falling score, each answers a term of the query,
/// and no skill that was left out answers more terms than one that was found.
pub proof fn law_best_skills_come_first(
    skills: Seq<Skill>,
    scores: Seq<Relevance>,
    top_k: usize,
    found: Seq<(&Skill, Relevance)>,
    order: Seq<usize>,
)
    requires
        scores.len() == skills.len(),
        are_best(skills, scores, top_k, found, order),
    ensures
        forall|k: int, m: int|
            0 <= k < m < found.len() ==> (#[trigger] found[k]).1.matches >= (
            #[trigger] found[m]).1.matches,
        forall|k: int| 0 <= k < found.len() ==> (#[trigger] found[k]).1.matches > 0,
        forall|k: int, m: int|
            0 <= k < found.len() <= m < order.len() ==> (#[trigger] found[k]).1.matches
                >= scores[#[trigger] order[m] as int].matches,
{
    assert forall|k: int, m: int| 0 <= k < found.len() && k < m < order.len() implies (
    #[trigger] found[k]).1.matches >= scores[#[trigger] order[m] as int].matches by {
        let keys = score_keys(scores);
        let x = order[k] as int;
        let y = order[m] as int;
        assert(sorting::comes_first(keys, x, y));
        assert(x < skills.len() && y < skills.len());
        assert(keys[x] == Descending(scores[x].matches as u64));
        assert(keys[y] == Descending(scores[y].matches as u64));
    }
    assert forall|k: int, m: int| 0 <= k < m < found.len() implies (#[trigger] found[k]).1.matches
        >= (#[trigger] found[m]).1.matches by {
        assert(order[m] < skills.len());
    }
}

/// Where the query has no terms no skill is found.
pub proof fn law_blank_query_finds_nothing(
    query: Seq<char>,
    skills: Seq<Skill>,
    top_k: usize,
    found: Seq<(&Skill, Relevance)>,
    order: Seq<usize>,
)
    requires
        text::words(query).len() == 0,
        are_best(skills, relevances(query, skills), top_k, found, order),
    ensures
        found.len() == 0,
{
    if found.len() > 0 {
        let first = found[0];
        assert(order[0] < skills.len());
        assert(first.1 == relevance(query, skills[order[0] as int]));
        assert(text::words(query).map_values(|t: Seq<char>| text::unicode_lower(t)) =~= Seq::<
            Seq<char>,
        >::empty());
    }
}

/// What is searched of a skill begins with its name and its description, goes on
/// with its prompts, and ends with its tags.
pub proof fn law_the_whole_skill_is_searched(skill: Skill, i: int)
    ensures
        skill.prompts@.len() == 0 ==> index_content(skill) == skill.description@,
        skill.prompts@.len() > 0 ==> index_content(skill) == skill.description@ + " "@ + text::join(
            text::views(skill.prompts@),
            " "@,
        ),
        text::has_prefix(searchable(skill), skill.name@ + " "@ + index_content(skill) + " "@),
        text::has_suffix(searchable(skill), text::join(text::views(skill.tags@), " "@)),
        0 <= i < skill.tags@.len() ==> text::contains(searchable(skill), skill.tags@[i]@),
        0 <= i < skill.prompts@.len() ==> text::contains(searchable(skill), skill.prompts@[i]@),
        text::contains(searchable(skill), skill.name@),
        text::contains(searchable(skill), skill.description@),
{
    let none = Seq::<char>::empty();
    let first = seq![skill.description@];
    let prompts = text::views(skill.prompts@);
    let tags = text::join(text::views(skill.tags@), " "@);
    assert(first.drop_last() =~= Seq::<Seq<char>>::empty());
    assert(text::join(first, " "@) == skill.description@);
    if prompts.len() == 0 {
        assert(first + prompts =~= first);
    } else {
        text::law_joining_puts_the_separator_between(first, prompts, " "@);
    }
    let content = index_content(skill);
    let head = skill.name@ + " "@ + content + " "@;
    assert(searchable(skill) =~= head + tags);
    text::lemma_prefix(head, tags);
    text::lemma_suffix(head, tags);
    if 0 <= i < skill.tags@.len() {
        text::lemma_contains_self(skill.tags@[i]@);
        text::lemma_join_contains(text::views(skill.tags@), " "@, i, skill.tags@[i]@);
        text::lemma_contains_within(head, tags, none, skill.tags@[i]@);
        assert(head + tags + none =~= searchable(skill));
    }
    let before = skill.name@ + " "@;
    assert(searchable(skill) =~= before + content + (" "@ + tags));
    let all = first + prompts;
    if 0 <= i < skill.prompts@.len() {
        assert(all[i + 1] == skill.prompts@[i]@);
        text::lemma_contains_self(skill.prompts@[i]@);
        text::lemma_join_contains(all, " "@, i + 1, skill.prompts@[i]@);
        text::lemma_contains_within(before, content, " "@ + tags, skill.prompts@[i]@);
    }
    assert(all[0] == skill.description@);
    text::lemma_contains_self(skill.description@);
    text::lemma_join_contains(all, " "@, 0, skill.description@);
    text::lemma_contains_within(before, content, " "@ + tags, skill.description@);
    text::lemma_contains_self(skill.name@);
    text::lemma_contains_within(none, skill.name@, " "@ + content + " "@ + tags, skill.name@);
    assert(none + skill.name@ + (" "@ + content + " "@ + tags) =~= searchable(skill));
}

/// Each term counts once where it stands in the text, letter case aside, and the
/// terms of two lists count together.
pub proof fn law_terms_count_for_themselves(
    a: Seq<Seq<char>>,
    b: Seq<Seq<char>>,
    term: Seq<char>,
    hay: Seq<char>,
)
    ensures
        count_in(a + b, hay) == count_in(a, hay) + count_in(b, hay),
        count_in(seq![term], hay) == if text::contains(hay, term) {
            1nat
        } else {
            0nat
        },
        count_in(Seq::<Seq<char>>::empty(), hay) == 0,
        count_matches(a + b, hay) == count_matches(a, hay) + count_matches(b, hay),
        count_matches(seq![term], hay) == if text::contains(
            text::unicode_lower(hay),
            text::unicode_lower(term),
        ) {
            1nat
        } else {
            0nat
        },
{
    let low = |t: Seq<char>| text::unicode_lower(t);
    lemma_counts_add_up(a, b, hay);
    lemma_counts_add_up(a.map_values(low), b.map_values(low), text::unicode_lower(hay));
    assert((a + b).map_values(low) =~= a.map_values(low) + b.map_values(low));
    assert(seq![term].drop_last() =~= Seq::<Seq<char>>::empty());
    assert(count_in(seq![term].drop_last(), hay) == 0);
    let one = seq![term].map_values(low);
    assert(one.drop_last() =~= Seq::<Seq<char>>::empty());
    assert(count_in(one.drop_last(), text::unicode_lower(hay)) == 0);
    assert(one.last() == text::unicode_lower(term));
}

proof fn lemma_counts_add_up(a: Seq<Seq<char>>, b: Seq<Seq<char>>, hay: Seq<char>)
    ensures
        count_in(a + b, hay) == count_in(a, hay) + count_in(b, hay),
    decreases b.len(),
{
    if b.len() == 0 {
        assert(a + b =~= a);
    } else {
        lemma_counts_add_up(a, b.drop_last(), hay);
        assert((a + b).drop_last() =~= a + b.drop_last());
        assert((a + b).last() == b.last());
    }
}

/// Every skill is scored by itself: by how many of the words of the query stand in
/// what is searched of it, out of how many there are.
pub proof fn law_skills_are_scored_by_themselves(query: Seq<char>, skills: Seq<Skill>, i: int)
    requires
        0 <= i < skills.len(),
        text::words(query).len() <= usize::MAX,
    ensures
        relevances(query, skills).len() == skills.len(),
        relevances(query, skills)[i].total == text::words(query).len(),
        relevances(query, skills)[i].matches == count_matches(
            text::words(query),
            searchable(skills[i]),
        ),
{
    let low = |t: Seq<char>| text::unicode_lower(t);
    lemma_no_more_than_terms(
        text::words(query).map_values(low),
        text::unicode_lower(searchable(skills[i])),
    );
}

proof fn lemma_no_more_than_terms(terms: Seq<Seq<char>>, hay: Seq<char>)
    ensures
        count_in(terms, hay) <= terms.len(),
    decreases terms.len(),
{
    if terms.len() > 0 {
        lemma_no_more_than_terms(terms.drop_last(), hay);
    }
}

/// Each skill that is found stands in the list with the score it has there, no two
/// come from one place, and where fewer are found than asked for, no other answers
/// any term.
pub proof fn law_no_answer_is_left_out(
    skills: Seq<Skill>,
    scores: Seq<Relevance>,
    top_k: usize,
    found: Seq<(&Skill, Relevance)>,
    order: Seq<usize>,
    i: int,
)
    requires
        scores.len() == skills.len(),
        skills.len() <= usize::MAX,
        are_best(skills, scores, top_k, found, order),
        0 <= i < skills.len(),
    ensures
        found.len() <= top_k,
        forall|k: int|
            0 <= k < found.len() ==> *(#[trigger] found[k]).0 == skills[order[k] as int]
                && found[k].1 == scores[order[k] as int],
        found.len() < top_k && scores[i].matches > 0 ==> exists|k: int|
            0 <= k < found.len() && #[trigger] order[k] == i,
{
    let keys = score_keys(scores);
    if found.len() < top_k && scores[i].matches > 0 {
        sorting::lemma_arrangement_full(order, skills.len() as int, i as usize);
        let k = choose|k: int| 0 <= k < order.len() && order[k] == i as usize;
        let f = found.len() as int;
        if k > f {
            sorting::law_numbers_turned_round_fall(keys, order, f, k);
            assert(keys[order[k] as int] == Descending(scores[i].matches as u64));
            assert(keys[order[f] as int] == Descending(scores[order[f] as int].matches as u64));
        }
        assert(k < f);
    }
}

} // verus!
