//! The `remember` tool — append a durable fact to project memory.

use crate::ids;
use crate::json;
use crate::json::{Json, JsonView};
use crate::text;
use crate::tools::traits;
use crate::tools::traits::ToolResult;
use vstd::prelude::*;

verus! {

/// The arguments of a call.
#[derive(Debug)]
pub struct RememberArgs {
    pub fact: String,
    pub tags: Vec<String>,
}

/// The tool, over a memory of type `M`.
pub struct RememberTool<M> {
    memory: M,
}

/// What is stored of a fact: the fact, and its tags where it has any.
pub open spec fn stored_content(fact: Seq<char>, tags: Seq<Seq<char>>) -> Seq<char> {
    if tags.len() == 0 {
        fact
    } else {
        fact + " [tags: "@ + text::join(tags, ", "@) + "]"@
    }
}

/// What stands before the random part of a key.
pub const KEY_PREFIX: &'static str = "remember-";

/// What the tool is for.
pub const REMEMBER_DESCRIPTION: &'static str = "Save a durable fact to project memory. Use for user preferences, architectural decisions, or learned context you want to persist to later sessions. Do NOT use for ephemeral task state — that belongs in the transcript, not in memory.";

/// What the schema says of a fact.
pub const FACT_DESCRIPTION: &'static str = "The fact to remember. One sentence is ideal. Past tense or present tense; avoid imperatives.";

/// What the schema says of the tags.
pub const TAGS_DESCRIPTION: &'static str = "Optional tags for later retrieval (e.g. [\"preference\", \"whatsapp\"]).";

/// The JSON schema of the arguments.
pub open spec fn remember_schema() -> JsonView {
    JsonView::Object(
        seq![
            ("type"@, JsonView::Text("object"@)),
            (
                "properties"@,
                JsonView::Object(
                    seq![
                        (
                            "fact"@,
                            JsonView::Object(
                                seq![
                                    ("type"@, JsonView::Text("string"@)),
                                    ("description"@, JsonView::Text(FACT_DESCRIPTION@)),
                                ],
                            ),
                        ),
                        (
                            "tags"@,
                            JsonView::Object(
                                seq![
                                    ("type"@, JsonView::Text("array"@)),
                                    (
                                        "items"@,
                                        JsonView::Object(
                                            seq![("type"@, JsonView::Text("string"@))],
                                        ),
                                    ),
                                    ("description"@, JsonView::Text(TAGS_DESCRIPTION@)),
                                ],
                            ),
                        ),
                    ],
                ),
            ),
            ("required"@, JsonView::Array(seq![JsonView::Text("fact"@)])),
        ],
    )
}

impl<M> RememberTool<M> {
    /// The memory that facts go to.
    pub closed spec fn held_memory(&self) -> M {
        self.memory
    }

    pub fn new(memory: M) -> (r: Self)
        ensures
            r.held_memory() == memory,
    {
        RememberTool { memory }
    }

    /// The memory that facts go to.
    pub fn memory(&self) -> (r: &M)
        ensures
            *r == self.held_memory(),
    {
        &self.memory
    }

    pub fn name(&self) -> (r: &'static str)
        ensures
            r@ == "remember"@,
    {
        "remember"
    }

    pub fn description(&self) -> (r: &'static str)
        ensures
            r@ == REMEMBER_DESCRIPTION@,
    {
        REMEMBER_DESCRIPTION
    }

    pub fn parameters_schema(&self) -> (r: Json)
        ensures
            r@ == remember_schema(),
    {
        let fact = json::object2(
            "type",
            json::string("string"),
            "description",
            json::string(FACT_DESCRIPTION),
        );
        let tags = json::object3(
            "type",
            json::string("array"),
            "items",
            json::object1("type", json::string("string")),
            "description",
            json::string(TAGS_DESCRIPTION),
        );
        json::object3(
            "type",
            json::string("object"),
            "properties",
            json::object2("fact", fact, "tags", tags),
            "required",
            json::array1(json::string("fact")),
        )
    }

    /// The key and the content under which a fact is stored. The key is random.
    pub fn entry(&self, args: &RememberArgs) -> (r: (String, String))
        ensures
            text::has_prefix(r.0@, KEY_PREFIX@),
            ids::is_uuid_v4(r.0@.skip(KEY_PREFIX@.len() as int)),
            ids::is_drawn(r.0@.skip(KEY_PREFIX@.len() as int)),
            r.1@ == stored_content(args.fact@, text::views(args.tags@)),
    {
        let id = ids::new_id();
        let key = text::cat2(KEY_PREFIX, id.as_str());
        proof {
            assert(key@.take(KEY_PREFIX@.len() as int) =~= KEY_PREFIX@);
            assert(key@.skip(KEY_PREFIX@.len() as int) =~= id@);
        }
        let content = if args.tags.len() == 0 {
            args.fact.clone()
        } else {
            let tags = text::joined(&args.tags, ", ");
            text::cat4(args.fact.as_str(), " [tags: ", tags.as_str(), "]")
        };
        (key, content)
    }

    /// The result of a call, once the fact is stored.
    pub fn finish(&self, args: &RememberArgs) -> (r: ToolResult)
        ensures
            r@ == traits::success("Remembered: "@ + args.fact@),
    {
        ToolResult::succeeded(text::cat2("Remembered: ", args.fact.as_str()))
    }
}

/// The error for arguments that cannot be read.
pub fn invalid_arguments(error: &str) -> (r: String)
    ensures
        r@ == "invalid arguments for remember: "@ + error@,
{
    text::cat2("invalid arguments for remember: ", error)
}

/// What is stored holds the fact and every tag, so that either finds it again.
pub proof fn law_fact_and_tags_are_stored(fact: Seq<char>, tags: Seq<Seq<char>>, i: int)
    ensures
        text::contains(stored_content(fact, tags), fact),
        0 <= i < tags.len() ==> text::contains(stored_content(fact, tags), tags[i]),
{
    text::lemma_contains_self(fact);
    if tags.len() > 0 {
        let joined = text::join(tags, ", "@);
        let all = stored_content(fact, tags);
        text::lemma_contains_within(
            Seq::<char>::empty(),
            fact,
            " [tags: "@ + joined + "]"@,
            fact,
        );
        assert(Seq::<char>::empty() + fact + (" [tags: "@ + joined + "]"@) =~= all);
        if 0 <= i < tags.len() {
            text::lemma_contains_self(tags[i]);
            text::lemma_join_contains(tags, ", "@, i, tags[i]);
            text::lemma_contains_within(fact + " [tags: "@, joined, "]"@, tags[i]);
        }
    }
}

/// A fact without tags is stored as it is. With one tag, the tag stands in
/// brackets behind it; the tags of a longer list stand behind each other, with a
/// comma between them.
pub proof fn law_tags_stand_behind_the_fact(
    fact: Seq<char>,
    tag: Seq<char>,
    a: Seq<Seq<char>>,
    b: Seq<Seq<char>>,
)
    requires
        a.len() > 0,
        b.len() > 0,
    ensures
        stored_content(fact, Seq::<Seq<char>>::empty()) == fact,
        stored_content(fact, seq![tag]) == fact + " [tags: "@ + tag + "]"@,
        stored_content(fact, a + b) == stored_content(fact, a).drop_last() + ", "@
            + stored_content(Seq::<char>::empty(), b).skip(8),
{
    reveal_strlit(" [tags: ");
    reveal_strlit("]");
    let none = Seq::<char>::empty();
    assert(seq![tag].drop_last() =~= Seq::<Seq<char>>::empty());
    assert(text::join(seq![tag], ", "@) == tag);
    text::law_joining_puts_the_separator_between(a, b, ", "@);
    assert(stored_content(fact, a).drop_last() =~= fact + " [tags: "@ + text::join(a, ", "@));
    assert(stored_content(none, b).skip(8) =~= text::join(b, ", "@) + "]"@);
    assert(stored_content(fact, a + b) =~= stored_content(fact, a).drop_last() + ", "@
        + stored_content(none, b).skip(8));
}

/// A call needs a fact, which is a text; tags are a list, and need not be given.
pub proof fn law_a_fact_is_asked_for()
    ensures
        remember_schema().has("type"@, JsonView::Text("object"@)),
        remember_schema().has("required"@, JsonView::Array(seq![JsonView::Text("fact"@)])),
        remember_schema().asks_for("fact"@, "string"@),
        remember_schema().asks_for("tags"@, "array"@),
{
    reveal_strlit("type");
    reveal_strlit("properties");
    reveal_strlit("required");
    reveal_strlit("fact");
    reveal_strlit("tags");
    reveal_strlit("items");
    reveal_strlit("description");
    assert("type"@.len() == 4 && "properties"@.len() == 10 && "required"@.len() == 8);
    assert("fact"@[0] == 'f' && "tags"@[0] == 't');
    assert("items"@.len() == 5 && "description"@.len() == 11);
    let all = remember_schema()->Object_0;
    assert(all[0] == ("type"@, JsonView::Text("object"@)));
    assert(all[2] == ("required"@, JsonView::Array(seq![JsonView::Text("fact"@)])));
    let props = all[1].1;
    assert(all[1] == ("properties"@, props));
    assert(remember_schema().has("properties"@, props));
    let fields = props->Object_0;
    let fact = fields[0].1;
    let tags = fields[1].1;
    assert(fields[0] == ("fact"@, fact) && fields[1] == ("tags"@, tags));
    assert(props.has("fact"@, fact) && props.has("tags"@, tags));
    assert(fact->Object_0[0] == ("type"@, JsonView::Text("string"@)));
    assert(tags->Object_0[0] == ("type"@, JsonView::Text("array"@)));
}

} // verus!
