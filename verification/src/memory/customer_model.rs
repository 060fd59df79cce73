//! Structured customer modeling for Naseyma business agents.

use crate::clock;
use crate::text;
use vstd::prelude::*;

verus! {

/// Structured profile of a customer's business.
#[derive(Debug, Clone)]
pub struct CustomerModel {
    pub business_type: Option<String>,
    pub preferred_language: Option<String>,
    pub communication_style: Option<String>,
    pub common_requests: Vec<String>,
    pub business_hours: Option<String>,
    pub preferences: Vec<String>,
    pub session_count: u64,
    pub last_updated: Option<String>,
}

/// An incremental update to apply to the customer model.
#[derive(Debug, Clone)]
pub struct CustomerModelUpdate {
    pub business_type: Option<String>,
    pub preferred_language: Option<String>,
    pub communication_style: Option<String>,
    pub common_requests: Vec<String>,
    pub business_hours: Option<String>,
    pub preferences: Vec<String>,
}

/// What a customer model says.
#[verifier::ext_equal]
pub struct ModelView {
    pub business_type: Option<Seq<char>>,
    pub preferred_language: Option<Seq<char>>,
    pub communication_style: Option<Seq<char>>,
    pub common_requests: Seq<Seq<char>>,
    pub business_hours: Option<Seq<char>>,
    pub preferences: Seq<Seq<char>>,
    pub session_count: u64,
    pub last_updated: Option<Seq<char>>,
}

/// What an update says.
#[verifier::ext_equal]
pub struct UpdateView {
    pub business_type: Option<Seq<char>>,
    pub preferred_language: Option<Seq<char>>,
    pub communication_style: Option<Seq<char>>,
    pub common_requests: Seq<Seq<char>>,
    pub business_hours: Option<Seq<char>>,
    pub preferences: Seq<Seq<char>>,
}

impl View for CustomerModel {
    type V = ModelView;

    open spec fn view(&self) -> ModelView {
        ModelView {
            business_type: text::view_opt_string(self.business_type),
            preferred_language: text::view_opt_string(self.preferred_language),
            communication_style: text::view_opt_string(self.communication_style),
            common_requests: text::views(self.common_requests@),
            business_hours: text::view_opt_string(self.business_hours),
            preferences: text::views(self.preferences@),
            session_count: self.session_count,
            last_updated: text::view_opt_string(self.last_updated),
        }
    }
}

impl View for CustomerModelUpdate {
    type V = UpdateView;

    open spec fn view(&self) -> UpdateView {
        UpdateView {
            business_type: text::view_opt_string(self.business_type),
            preferred_language: text::view_opt_string(self.preferred_language),
            communication_style: text::view_opt_string(self.communication_style),
            common_requests: text::views(self.common_requests@),
            business_hours: text::view_opt_string(self.business_hours),
            preferences: text::views(self.preferences@),
        }
    }
}

impl Default for CustomerModel {
    fn default() -> (r: Self)
        ensures
            r@ == (ModelView {
                business_type: None,
                preferred_language: None,
                communication_style: None,
                common_requests: Seq::<Seq<char>>::empty(),
                business_hours: None,
                preferences: Seq::<Seq<char>>::empty(),
                session_count: 0,
                last_updated: None,
            }),
    {
        let r = CustomerModel {
            business_type: None,
            preferred_language: None,
            communication_style: None,
            common_requests: Vec::new(),
            business_hours: None,
            preferences: Vec::new(),
            session_count: 0,
            last_updated: None,
        };
        proof {
            assert(text::views(r.common_requests@) =~= Seq::<Seq<char>>::empty());
            assert(text::views(r.preferences@) =~= Seq::<Seq<char>>::empty());
        }
        r
    }
}

impl Default for CustomerModelUpdate {
    fn default() -> (r: Self)
        ensures
            r@ == (UpdateView {
                business_type: None,
                preferred_language: None,
                communication_style: None,
                common_requests: Seq::<Seq<char>>::empty(),
                business_hours: None,
                preferences: Seq::<Seq<char>>::empty(),
            }),
    {
        let r = CustomerModelUpdate {
            business_type: None,
            preferred_language: None,
            communication_style: None,
            common_requests: Vec::new(),
            business_hours: None,
            preferences: Vec::new(),
        };
        proof {
            assert(text::views(r.common_requests@) =~= Seq::<Seq<char>>::empty());
            assert(text::views(r.preferences@) =~= Seq::<Seq<char>>::empty());
        }
        r
    }
}

/// The newer value, where there is one.
pub open spec fn newer(held: Option<Seq<char>>, update: Option<Seq<char>>) -> Option<Seq<char>> {
    if update is Some {
        update
    } else {
        held
    }
}

/// `list` followed by those of `items` that it does not hold yet.
pub open spec fn union(list: Seq<Seq<char>>, items: Seq<Seq<char>>) -> Seq<Seq<char>>
    decreases items.len(),
{
    if items.len() == 0 {
        list
    } else {
        let before = union(list, items.drop_last());
        if before.contains(items.last()) {
            before
        } else {
            before.push(items.last())
        }
    }
}

/// The model with an update applied at the given time.
pub open spec fn updated(m: ModelView, u: UpdateView, now: Seq<char>) -> ModelView {
    ModelView {
        business_type: newer(m.business_type, u.business_type),
        preferred_language: newer(m.preferred_language, u.preferred_language),
        communication_style: newer(m.communication_style, u.communication_style),
        common_requests: union(m.common_requests, u.common_requests),
        business_hours: newer(m.business_hours, u.business_hours),
        preferences: union(m.preferences, u.preferences),
        session_count: (m.session_count + 1) as u64,
        last_updated: Some(now),
    }
}

fn take_newer(held: &mut Option<String>, update: &Option<String>)
    ensures
        text::view_opt_string(*final(held)) == newer(
            text::view_opt_string(*old(held)),
            text::view_opt_string(*update),
        ),
{
    if update.is_some() {
        *held = text::copied_opt(update);
    }
}

fn unite(list: &mut Vec<String>, items: &Vec<String>)
    ensures
        text::views(final(list)@) == union(text::views(old(list)@), text::views(items@)),
{
    let ghost start = text::views(list@);
    let ghost all = text::views(items@);
    proof {
        assert(all.take(0) =~= Seq::<Seq<char>>::empty());
    }
    for i in 0..items.len()
        invariant
            all == text::views(items@),
            text::views(list@) == union(start, all.take(i as int)),
    {
        let ghost before = text::views(list@);
        proof {
            assert(all.take(i + 1).drop_last() =~= all.take(i as int));
            assert(all.take(i + 1).last() == items@[i as int]@);
        }
        if !text::has_text(list, items[i].as_str()) {
            list.push(items[i].clone());
            proof {
                assert(text::views(list@) =~= before.push(items@[i as int]@));
            }
        }
    }
    proof {
        assert(all.take(all.len() as int) =~= all);
    }
}

impl CustomerModel {
    /// Merge an incremental update that comes at the given time. Only
    /// non-None/non-empty fields overwrite. Lists are unioned (deduplicated).
    pub fn apply_update_at(&mut self, update: &CustomerModelUpdate, now: String)
        requires
            old(self).session_count < u64::MAX,
        ensures
            final(self)@ == updated(old(self)@, update@, now@),
    {
        take_newer(&mut self.business_type, &update.business_type);
        take_newer(&mut self.preferred_language, &update.preferred_language);
        take_newer(&mut self.communication_style, &update.communication_style);
        take_newer(&mut self.business_hours, &update.business_hours);

        // Union and deduplicate Vec fields
        unite(&mut self.common_requests, &update.common_requests);
        unite(&mut self.preferences, &update.preferences);

        self.session_count = self.session_count + 1;
        self.last_updated = Some(now);
    }

    /// Merge an incremental update. Only non-None/non-empty fields overwrite.
    /// Lists are unioned (deduplicated). The time of the update is that of the
    /// machine.
    pub fn apply_update(&mut self, update: &CustomerModelUpdate)
        requires
            old(self).session_count < u64::MAX,
        ensures
            final(self)@.last_updated is Some,
            text::has_suffix(final(self)@.last_updated->0, "+00:00"@),
            clock::is_timestamp(final(self)@.last_updated->0),
            final(self)@ == updated(old(self)@, update@, final(self)@.last_updated->0),
    {
        self.apply_update_at(update, clock::timestamp());
    }
}

pub const CUSTOMER_MODEL_EXTRACTION_PROMPT: &'static str = r#"You are an AI assistant that extracts structured information about a customer's business from conversation context.

Analyze the conversation and extract any available information about the customer's business. Return a JSON object with the following fields:
- business_type: The type of business (e.g., "pharmacy", "restaurant", "retail store") or null if unknown
- preferred_language: The customer's preferred language (e.g., "ar", "en", "fr") or null if unknown
- communication_style: The customer's communication style (e.g., "formal", "casual", "technical") or null if unknown
- common_requests: An array of common request types observed, empty array if none observed
- business_hours: The business operating hours or null if unknown
- preferences: An array of business/communication preferences noted, empty array if none observed

Rules:
- Use null for any fields where information is not clearly present in the conversation
- Use empty arrays [] for common_requests and preferences if no items are identified
- Do not guess or infer information that is not explicitly stated or strongly implied
- Return only the JSON object, no additional text

Example output:
{
  "business_type": "pharmacy",
  "preferred_language": "ar",
  "communication_style": "formal",
  "common_requests": ["prescription refill", "medication inquiry"],
  "business_hours": "9am-6pm weekdays",
  "preferences": ["prefers Arabic responses", "needs detailed instructions"]
}"#;

/// What stands inside a code fence, whose opening is gone already.
pub open spec fn fenced(inner: Seq<char>) -> Seq<char> {
    text::trim(text::without_trailing(text::trim_start(inner), "```"@))
}

/// The JSON in the raw output of a model: the text without white space around
/// it and without a code fence.
pub open spec fn json_part(raw: Seq<char>) -> Seq<char> {
    let trimmed = text::trim(raw);
    match text::without_prefix(trimmed, "```json"@) {
        Some(inner) => fenced(inner),
        None => match text::without_prefix(trimmed, "```"@) {
            Some(inner) => fenced(inner),
            None => trimmed,
        },
    }
}

/// The part of raw LLM output in which a `CustomerModelUpdate` is to be read.
/// Strips optional markdown code fences.
pub fn update_json(raw: &str) -> (r: &str)
    ensures
        r@ == json_part(raw@),
{
    let trimmed = text::trimmed(raw);
    let inner = match text::strip_prefix(trimmed, "```json") {
        Some(inner) => Some(inner),
        None => text::strip_prefix(trimmed, "```"),
    };
    match inner {
        Some(inner) => {
            proof {
                reveal_strlit("```");
            }
            text::trimmed(text::strip_trailing(text::trimmed_start(inner), "```"))
        },
        None => trimmed,
    }
}

// ---------------------------------------------------------------------------
// Laws
// ---------------------------------------------------------------------------

/// A united list holds what either list held, keeps the first list in front,
/// and holds nothing twice that was not there twice before.
pub proof fn law_lists_are_united(list: Seq<Seq<char>>, items: Seq<Seq<char>>)
    ensures
        forall|x: Seq<char>|
            #[trigger] union(list, items).contains(x) <==> list.contains(x) || items.contains(x),
        list.len() <= union(list, items).len(),
        union(list, items).take(list.len() as int) == list,
        list.no_duplicates() ==> union(list, items).no_duplicates(),
    decreases items.len(),
{
    if items.len() == 0 {
        assert(union(list, items).take(list.len() as int) =~= list);
    } else {
        let rest = items.drop_last();
        let before = union(list, rest);
        let all = union(list, items);
        law_lists_are_united(list, rest);
        assert(all.take(list.len() as int) =~= before.take(list.len() as int));
        assert forall|x: Seq<char>| #[trigger] all.contains(x) implies list.contains(x)
            || items.contains(x) by {
            let i = choose|i: int| 0 <= i < all.len() && all[i] == x;
            if i < before.len() {
                assert(before.contains(before[i]));
                if rest.contains(x) {
                    let k = choose|k: int| 0 <= k < rest.len() && rest[k] == x;
                    assert(items[k] == x);
                }
            } else {
                assert(items[items.len() - 1] == x);
            }
        }
        assert forall|x: Seq<char>| list.contains(x) || items.contains(x) implies #[trigger] all.contains(
            x,
        ) by {
            if before.contains(x) {
                let i = choose|i: int| 0 <= i < before.len() && before[i] == x;
                assert(all[i] == x);
            } else if items.contains(x) {
                let k = choose|k: int| 0 <= k < items.len() && items[k] == x;
                if k < rest.len() {
                    assert(rest[k] == x);
                    assert(rest.contains(x));
                }
                assert(x == items.last());
                assert(all[all.len() - 1] == x);
            }
        }
    }
}

/// An update that is applied a second time adds nothing to the lists and
/// changes no other field but the count of sessions and the time.
pub proof fn law_repeated_update_adds_nothing(
    m: ModelView,
    u: UpdateView,
    first: Seq<char>,
    second: Seq<char>,
)
    ensures
        ({
            let once = updated(m, u, first);
            updated(once, u, second) == (ModelView {
                session_count: (once.session_count + 1) as u64,
                last_updated: Some(second),
                ..once
            })
        }),
{
    let once = updated(m, u, first);
    law_lists_are_united(m.common_requests, u.common_requests);
    law_lists_are_united(m.preferences, u.preferences);
    lemma_nothing_new(once.common_requests, u.common_requests);
    lemma_nothing_new(once.preferences, u.preferences);
}

proof fn lemma_nothing_new(list: Seq<Seq<char>>, items: Seq<Seq<char>>)
    requires
        forall|x: Seq<char>| items.contains(x) ==> #[trigger] list.contains(x),
    ensures
        union(list, items) == list,
    decreases items.len(),
{
    if items.len() > 0 {
        let rest = items.drop_last();
        assert forall|x: Seq<char>| rest.contains(x) implies #[trigger] list.contains(x) by {
            let k = choose|k: int| 0 <= k < rest.len() && rest[k] == x;
            assert(items[k] == x);
        }
        lemma_nothing_new(list, rest);
        assert(items[items.len() - 1] == items.last());
        assert(items.contains(items.last()));
    }
}

/// Each field takes what the update says of that field, and keeps what it held
/// where the update says nothing; every update counts as a session, and its time
/// is kept.
pub proof fn law_fields_take_their_own_updates(m: ModelView, u: UpdateView, now: Seq<char>)
    requires
        m.session_count < u64::MAX,
    ensures
        ({
            let r = updated(m, u, now);
            &&& u.business_type is Some ==> r.business_type == u.business_type
            &&& u.business_type is None ==> r.business_type == m.business_type
            &&& u.preferred_language is Some ==> r.preferred_language == u.preferred_language
            &&& u.preferred_language is None ==> r.preferred_language == m.preferred_language
            &&& u.communication_style is Some ==> r.communication_style == u.communication_style
            &&& u.communication_style is None ==> r.communication_style == m.communication_style
            &&& u.business_hours is Some ==> r.business_hours == u.business_hours
            &&& u.business_hours is None ==> r.business_hours == m.business_hours
            &&& forall|x: Seq<char>| #[trigger]
                r.common_requests.contains(x) <==> m.common_requests.contains(x)
                    || u.common_requests.contains(x)
            &&& forall|x: Seq<char>| #[trigger]
                r.preferences.contains(x) <==> m.preferences.contains(x) || u.preferences.contains(
                    x,
                )
            &&& r.session_count == m.session_count + 1
            &&& r.last_updated == Some(now)
        }),
{
    law_lists_are_united(m.common_requests, u.common_requests);
    law_lists_are_united(m.preferences, u.preferences);
}

/// New items come behind the list in their order: one that the list holds adds
/// nothing, another stands at its end, and two batches go in one behind the other.
pub proof fn law_new_items_come_in_order(
    list: Seq<Seq<char>>,
    item: Seq<char>,
    a: Seq<Seq<char>>,
    b: Seq<Seq<char>>,
)
    ensures
        union(list, Seq::<Seq<char>>::empty()) == list,
        list.contains(item) ==> union(list, seq![item]) == list,
        !list.contains(item) ==> union(list, seq![item]) == list.push(item),
        union(list, a + b) == union(union(list, a), b),
    decreases b.len(),
{
    assert(seq![item].drop_last() =~= Seq::<Seq<char>>::empty());
    assert(union(list, seq![item].drop_last()) == list);
    if b.len() == 0 {
        assert(a + b =~= a);
    } else {
        law_new_items_come_in_order(list, item, a, b.drop_last());
        assert((a + b).drop_last() =~= a + b.drop_last());
        assert((a + b).last() == b.last());
    }
}

/// A text without code fences is read as it stands, less the space around it; one
/// in code fences without them, with or without the name of the language.
pub proof fn law_fences_come_off(a: Seq<char>, s: Seq<char>, b: Seq<char>)
    requires
        text::only_space(a),
        text::only_space(b),
        s.len() > 0,
        !text::is_space(s[0]) && !text::is_space(s.last()),
        s[0] != '`' && s.last() != '`',
    ensures
        json_part(a + s + b) == s,
        json_part("```json\n"@ + s + "\n```"@) == s,
        json_part("```\n"@ + s + "\n```"@) == s,
{
    reveal_strlit("```json");
    reveal_strlit("```");
    reveal_strlit("```json\n");
    reveal_strlit("```\n");
    reveal_strlit("\n```");
    assert("```json"@.len() == 7 && "```"@.len() == 3 && "```json"@[0] == '`' && "```"@[0] == '`');
    text::lemma_trim_around(a, s, b);
    assert(!text::has_prefix(s, "```json"@)) by {
        if text::has_prefix(s, "```json"@) {
            assert(s.take(7)[0] == '`');
        }
    }
    assert(!text::has_prefix(s, "```"@)) by {
        if text::has_prefix(s, "```"@) {
            assert(s.take(3)[0] == '`');
        }
    }
    lemma_inside(s);
    let inner = seq!['\n'] + s + "\n```"@;
    let named = "```json\n"@ + s + "\n```"@;
    assert(named =~= "```json"@ + inner);
    assert(!text::is_space('`'));
    assert(named[0] == '`' && named.last() == '`');
    text::lemma_nothing_to_trim(named);
    text::law_beginnings_and_ends_come_off("```json"@, inner);
    let plain = "```\n"@ + s + "\n```"@;
    assert(plain =~= "```"@ + inner);
    assert(plain[0] == '`' && plain.last() == '`');
    text::lemma_nothing_to_trim(plain);
    text::law_beginnings_and_ends_come_off("```"@, inner);
    assert(!text::has_prefix(plain, "```json"@)) by {
        if text::has_prefix(plain, "```json"@) {
            assert(plain.take(7)[3] == 'j');
            assert(plain[3] == '\n');
        }
    }
}

proof fn lemma_inside(s: Seq<char>)
    requires
        s.len() > 0,
        !text::is_space(s[0]) && !text::is_space(s.last()),
        s.last() != '`',
    ensures
        fenced(seq!['\n'] + s + "\n```"@) == s,
{
    reveal_strlit("```");
    reveal_strlit("\n```");
    let none = Seq::<char>::empty();
    let inner = seq!['\n'] + s + "\n```"@;
    assert(text::is_space('\n'));
    assert(inner[0] == '\n');
    let rest = s + "\n```"@;
    assert(inner.skip(1) =~= rest);
    assert(rest[0] == s[0]);
    assert(text::trim_start(rest) == rest);
    assert(text::trim_start(inner) == rest);
    let kept = s + seq!['\n'];
    assert(rest =~= kept + "```"@);
    text::law_all_copies_come_off("```"@, kept);
    assert(!text::has_suffix(kept, "```"@)) by {
        if text::has_suffix(kept, "```"@) {
            assert(kept.skip(kept.len() - 3)[2] == '`');
            assert(kept.last() == '\n');
        }
    }
    assert(none + s + seq!['\n'] =~= kept);
    text::lemma_trim_around(none, s, seq!['\n']);
}

} // verus!
