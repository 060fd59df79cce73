//! JSON values.

use crate::text;
use vstd::prelude::*;

verus! {

/// A JSON value.
#[derive(Debug, PartialEq)]
pub enum Json {
    Null,
    Bool(bool),
    /// A number that is not negative and has no fraction.
    UInt(u64),
    /// A negative number without a fraction.
    Int(i64),
    /// Any other number, as its JSON text.
    Real(String),
    Text(String),
    Array(Vec<Json>),
    /// The members of an object. Where a key occurs twice the first one counts.
    Object(Vec<(String, Json)>),
}

/// What a JSON value says.
#[verifier::ext_equal]
pub enum JsonView {
    Null,
    Bool(bool),
    UInt(u64),
    Int(i64),
    Real(Seq<char>),
    Text(Seq<char>),
    Array(Seq<JsonView>),
    Object(Seq<(Seq<char>, JsonView)>),
}

/// What `j` says.
pub open spec fn content(j: Json) -> JsonView
    decreases j,
{
        match j {
            Json::Null => JsonView::Null,
            Json::Bool(b) => JsonView::Bool(b),
            Json::UInt(n) => JsonView::UInt(n),
            Json::Int(n) => JsonView::Int(n),
            Json::Real(s) => JsonView::Real(s@),
            Json::Text(s) => JsonView::Text(s@),
            Json::Array(items) => JsonView::Array(
                Seq::new(
                    items@.len(),
                    |i: int|
                        if 0 <= i < items@.len() {
                            content(items@[i])
                        } else {
                            JsonView::Null
                        },
                ),
            ),
            Json::Object(members) => JsonView::Object(
                Seq::new(
                    members@.len(),
                    |i: int|
                        if 0 <= i < members@.len() {
                            (members@[i].0@, content(members@[i].1))
                        } else {
                            (Seq::<char>::empty(), JsonView::Null)
                        },
                ),
            ),
        }
}

impl View for Json {
    type V = JsonView;

    open spec fn view(&self) -> JsonView {
        content(*self)
    }
}

/// The views of JSON values.
pub open spec fn views(items: Seq<Json>) -> Seq<JsonView> {
    items.map_values(|j: Json| j@)
}

/// The views of the members of an object.
pub open spec fn member_views(members: Seq<(String, Json)>) -> Seq<(Seq<char>, JsonView)> {
    members.map_values(|m: (String, Json)| (m.0@, m.1@))
}

/// The view of an array in terms of the views of its items.
pub proof fn lemma_array_view(items: Vec<Json>)
    ensures
        Json::Array(items)@ == JsonView::Array(views(items@)),
{
    assert(Json::Array(items)@->Array_0 =~= views(items@));
}

/// The view of an object in terms of the views of its members.
pub proof fn lemma_object_view(members: Vec<(String, Json)>)
    ensures
        Json::Object(members)@ == JsonView::Object(member_views(members@)),
{
    assert(Json::Object(members)@->Object_0 =~= member_views(members@));
}

impl Json {
    /// A copy of the value.
    pub fn copied(&self) -> (r: Json)
        ensures
            r@ == self@,
        decreases self,
    {
        match self {
            Json::Null => Json::Null,
            Json::Bool(b) => Json::Bool(*b),
            Json::UInt(n) => Json::UInt(*n),
            Json::Int(n) => Json::Int(*n),
            Json::Real(s) => Json::Real(s.clone()),
            Json::Text(s) => Json::Text(s.clone()),
            Json::Array(items) => {
                let mut out: Vec<Json> = Vec::new();
                for i in 0..items.len()
                    invariant
                        *self == Json::Array(*items),
                        out@.len() == i,
                        forall|k: int| 0 <= k < i ==> (#[trigger] out@[k])@ == items@[k]@,
                {
                    proof {
                        assert(decreases_to!(*self => self->Array_0));
                        assert(decreases_to!(*items => items@));
                        assert(decreases_to!(items@ => items@[i as int]));
                    }
                    out.push(items[i].copied());
                }
                proof {
                    lemma_array_view(out);
                    lemma_array_view(*items);
                    assert(views(out@) =~= views(items@));
                }
                Json::Array(out)
            },
            Json::Object(members) => {
                let mut out: Vec<(String, Json)> = Vec::new();
                for i in 0..members.len()
                    invariant
                        *self == Json::Object(*members),
                        out@.len() == i,
                        forall|k: int|
                            0 <= k < i ==> (#[trigger] out@[k]).0@ == members@[k].0@ && out@[k].1@
                                == members@[k].1@,
                {
                    proof {
                        assert(decreases_to!(*self => self->Object_0));
                        assert(decreases_to!(*members => members@));
                        assert(decreases_to!(members@ => members@[i as int]));
                        assert(decreases_to!(members@[i as int] => members@[i as int].1));
                    }
                    out.push((members[i].0.clone(), members[i].1.copied()));
                }
                proof {
                    lemma_object_view(out);
                    lemma_object_view(*members);
                    assert(member_views(out@) =~= member_views(members@));
                }
                Json::Object(out)
            },
        }
    }
}

impl Clone for Json {
    fn clone(&self) -> (r: Json)
        ensures
            r@ == self@,
    {
        self.copied()
    }
}

// ---------------------------------------------------------------------------
// Reading
// ---------------------------------------------------------------------------

/// The first value among `members` under `key`.
pub open spec fn lookup(members: Seq<(Seq<char>, JsonView)>, key: Seq<char>) -> Option<JsonView>
    decreases members.len(),
{
    if members.len() == 0 {
        None
    } else if members[0].0 == key {
        Some(members[0].1)
    } else {
        lookup(members.skip(1), key)
    }
}

impl JsonView {
    /// This is an object with the member `key`, and that is `value`; no other
    /// member has that key.
    pub open spec fn has(self, key: Seq<char>, value: JsonView) -> bool {
        &&& self is Object
        &&& exists|k: int|
            0 <= k < self->Object_0.len() && #[trigger] self->Object_0[k] == (key, value)
        &&& forall|k: int|
            0 <= k < self->Object_0.len() && (#[trigger] self->Object_0[k]).0 == key
                ==> self->Object_0[k].1 == value
    }

    /// As the schema of an object: it names a property, and says of what kind the
    /// value is.
    pub open spec fn asks_for(self, property: Seq<char>, kind: Seq<char>) -> bool {
        exists|all: JsonView, one: JsonView| #[trigger]
            self.has("properties"@, all) && #[trigger] all.has(property, one) && one.has(
                "type"@,
                JsonView::Text(kind),
            )
    }

    /// The value under `key`, where this is an object that has one.
    pub open spec fn get(self, key: Seq<char>) -> Option<JsonView> {
        match self {
            JsonView::Object(members) => lookup(members, key),
            _ => None,
        }
    }

    /// The text, where this is one.
    pub open spec fn text(self) -> Option<Seq<char>> {
        match self {
            JsonView::Text(s) => Some(s),
            _ => None,
        }
    }

    /// The text under `key`, where there is one.
    pub open spec fn text_at(self, key: Seq<char>) -> Option<Seq<char>> {
        match self.get(key) {
            Some(v) => v.text(),
            None => None,
        }
    }

    /// The items, where this is an array.
    pub open spec fn items(self) -> Option<Seq<JsonView>> {
        match self {
            JsonView::Array(items) => Some(items),
            _ => None,
        }
    }
}

/// Under a key stands the first of the members that have it: of an object with
/// the members `before`, then one with the key, then `after`, where none of
/// `before` has it, that one is found. Where no member has the key, nothing is.
pub proof fn law_first_member_of_a_key_counts(
    before: Seq<(Seq<char>, JsonView)>,
    key: Seq<char>,
    value: JsonView,
    after: Seq<(Seq<char>, JsonView)>,
)
    requires
        forall|k: int| 0 <= k < before.len() ==> (#[trigger] before[k]).0 != key,
    ensures
        JsonView::Object(before + seq![(key, value)] + after).get(key) == Some(value),
        JsonView::Object(before).get(key) is None,
        value matches JsonView::Text(s) ==> JsonView::Object(
            before + seq![(key, value)] + after,
        ).text_at(key) == Some(s),
        !(value is Text) ==> JsonView::Object(before + seq![(key, value)] + after).text_at(
            key,
        ) is None,
    decreases before.len(),
{
    let all = before + seq![(key, value)] + after;
    if before.len() > 0 {
        let rest = before.skip(1);
        assert(before[0].0 != key);
        assert(all[0] == before[0]);
        assert forall|k: int| 0 <= k < rest.len() implies (#[trigger] rest[k]).0 != key by {
            assert(before[k + 1].0 != key);
        }
        law_first_member_of_a_key_counts(rest, key, value, after);
        assert(all.skip(1) =~= rest + seq![(key, value)] + after);
    } else {
        assert(all[0] == (key, value));
    }
}

/// The view of an optional value.
pub open spec fn view_opt(j: Option<&Json>) -> Option<JsonView> {
    match j {
        Some(j) => Some(j@),
        None => None,
    }
}

impl Json {
    /// The value under `key`, where this is an object that has one.
    pub fn get(&self, key: &str) -> (r: Option<&Json>)
        ensures
            view_opt(r) == self@.get(key@),
    {
        match self {
            Json::Object(members) => {
                let ghost all = member_views(members@);
                proof {
                    lemma_object_view(*members);
                    assert(all.skip(0) =~= all);
                }
                for i in 0..members.len()
                    invariant
                        all == member_views(members@),
                        self@ == JsonView::Object(all),
                        lookup(all, key@) == lookup(all.skip(i as int), key@),
                {
                    proof {
                        assert(all.skip(i as int)[0] == all[i as int]);
                        assert(all.skip(i as int).skip(1) =~= all.skip(i + 1));
                    }
                    if text::same_text(members[i].0.as_str(), key) {
                        return Some(&members[i].1);
                    }
                }
                None
            },
            _ => None,
        }
    }

    /// The text, where this is one.
    pub fn as_text(&self) -> (r: Option<&str>)
        ensures
            text::view_opt(r) == self@.text(),
    {
        match self {
            Json::Text(s) => Some(s.as_str()),
            _ => None,
        }
    }

    /// The text under `key`, where there is one.
    pub fn text_at(&self, key: &str) -> (r: Option<&str>)
        ensures
            text::view_opt(r) == self@.text_at(key@),
    {
        match self.get(key) {
            Some(v) => v.as_text(),
            None => None,
        }
    }

    /// The items, where this is an array.
    pub fn as_array(&self) -> (r: Option<&Vec<Json>>)
        ensures
            match r {
                Some(items) => self@.items() == Some(views(items@)),
                None => self@.items() is None,
            },
    {
        match self {
            Json::Array(items) => {
                proof {
                    lemma_array_view(*items);
                }
                Some(items)
            },
            _ => None,
        }
    }
}

// ---------------------------------------------------------------------------
// Building
// ---------------------------------------------------------------------------

/// The text `s` as a value.
pub fn string(s: &str) -> (r: Json)
    ensures
        r@ == JsonView::Text(s@),
{
    Json::Text(s.to_string())
}

/// The array of `items`.
pub fn array(items: Vec<Json>) -> (r: Json)
    ensures
        r@ == JsonView::Array(views(items@)),
{
    proof {
        lemma_array_view(items);
    }
    Json::Array(items)
}

/// The object with `members`.
pub fn object(members: Vec<(String, Json)>) -> (r: Json)
    ensures
        r@ == JsonView::Object(member_views(members@)),
{
    proof {
        lemma_object_view(members);
    }
    Json::Object(members)
}

/// Adds a member at the end.
pub fn put(members: &mut Vec<(String, Json)>, key: &str, value: Json)
    ensures
        member_views(final(members)@) == member_views(old(members)@).push((key@, value@)),
{
    let ghost before = member_views(members@);
    let ghost v = value@;
    members.push((key.to_string(), value));
    proof {
        assert(member_views(members@) =~= before.push((key@, v)));
    }
}

/// The object without members.
pub fn object0() -> (r: Json)
    ensures
        r@ == JsonView::Object(Seq::<(Seq<char>, JsonView)>::empty()),
{
    let members: Vec<(String, Json)> = Vec::new();
    proof {
        assert(member_views(members@) =~= Seq::<(Seq<char>, JsonView)>::empty());
    }
    object(members)
}

/// The object with one member.
pub fn object1(k: &str, v: Json) -> (r: Json)
    ensures
        r@ == JsonView::Object(seq![(k@, v@)]),
{
    let mut members: Vec<(String, Json)> = Vec::new();
    let ghost all = seq![(k@, v@)];
    put(&mut members, k, v);
    proof {
        assert(member_views(members@) =~= all);
    }
    object(members)
}

/// The object with two members.
pub fn object2(k1: &str, v1: Json, k2: &str, v2: Json) -> (r: Json)
    ensures
        r@ == JsonView::Object(seq![(k1@, v1@), (k2@, v2@)]),
{
    let mut members: Vec<(String, Json)> = Vec::new();
    let ghost all = seq![(k1@, v1@), (k2@, v2@)];
    put(&mut members, k1, v1);
    put(&mut members, k2, v2);
    proof {
        assert(member_views(members@) =~= all);
    }
    object(members)
}

/// The object with three members.
pub fn object3(k1: &str, v1: Json, k2: &str, v2: Json, k3: &str, v3: Json) -> (r: Json)
    ensures
        r@ == JsonView::Object(seq![(k1@, v1@), (k2@, v2@), (k3@, v3@)]),
{
    let mut members: Vec<(String, Json)> = Vec::new();
    let ghost all = seq![(k1@, v1@), (k2@, v2@), (k3@, v3@)];
    put(&mut members, k1, v1);
    put(&mut members, k2, v2);
    put(&mut members, k3, v3);
    proof {
        assert(member_views(members@) =~= all);
    }
    object(members)
}

/// The object with four members.
pub fn object4(
    k1: &str,
    v1: Json,
    k2: &str,
    v2: Json,
    k3: &str,
    v3: Json,
    k4: &str,
    v4: Json,
) -> (r: Json)
    ensures
        r@ == JsonView::Object(seq![(k1@, v1@), (k2@, v2@), (k3@, v3@), (k4@, v4@)]),
{
    let mut members: Vec<(String, Json)> = Vec::new();
    let ghost all = seq![(k1@, v1@), (k2@, v2@), (k3@, v3@), (k4@, v4@)];
    put(&mut members, k1, v1);
    put(&mut members, k2, v2);
    put(&mut members, k3, v3);
    put(&mut members, k4, v4);
    proof {
        assert(member_views(members@) =~= all);
    }
    object(members)
}

/// The array with one item.
pub fn array1(v: Json) -> (r: Json)
    ensures
        r@ == JsonView::Array(seq![v@]),
{
    let ghost all = seq![v@];
    let mut items: Vec<Json> = Vec::new();
    items.push(v);
    proof {
        assert(views(items@) =~= all);
    }
    array(items)
}

// ---------------------------------------------------------------------------
// Text
// ---------------------------------------------------------------------------

/// A parsed value of `serde_json`.
#[verifier::external_type_specification]
#[verifier::external_body]
pub struct ExValue(serde_json::Value);

/// Why `serde_json` could not parse a text.
#[verifier::external_type_specification]
#[verifier::external_body]
pub struct ExError(serde_json::Error);

/// The value that a JSON text stands for; none where it is not JSON.
pub uninterp spec fn json_parse(s: Seq<char>) -> Option<JsonView>;

/// What a value of `serde_json` holds.
pub uninterp spec fn value_content(v: serde_json::Value) -> JsonView;

/// `serde_json::from_str` into a `serde_json::Value`: the outcome depends on
/// the text alone.
#[verifier::external_body]
fn parse_value(s: &str) -> (r: Result<serde_json::Value, serde_json::Error>)
    ensures
        match r {
            Ok(v) => json_parse(s@) == Some(value_content(v)),
            Err(_) => json_parse(s@) is None,
        },
{
    serde_json::from_str(s)
}

/// Moves what a `serde_json::Value` holds into a value of this crate, variant
/// by variant; members of objects come in the order in which `serde_json`
/// lists them.
#[verifier::external_body]
fn from_value(v: serde_json::Value) -> (r: Json)
    ensures
        r@ == value_content(v),
{
    match v {
        serde_json::Value::Null => Json::Null,
        serde_json::Value::Bool(b) => Json::Bool(b),
        serde_json::Value::Number(n) => match (n.as_u64(), n.as_i64()) {
            (Some(u), _) => Json::UInt(u),
            (None, Some(i)) => Json::Int(i),
            (None, None) => Json::Real(n.to_string()),
        },
        serde_json::Value::String(s) => Json::Text(s),
        serde_json::Value::Array(a) => Json::Array(a.into_iter().map(from_value).collect()),
        serde_json::Value::Object(m) => Json::Object(m.into_iter().map(|(k, v)| (k, from_value(v))).collect()),
    }
}

/// The value that the JSON text `s` stands for.
pub fn parse(s: &str) -> (r: Option<Json>)
    ensures
        match r {
            Some(j) => json_parse(s@) == Some(j@),
            None => json_parse(s@) is None,
        },
{
    match parse_value(s) {
        Ok(v) => Some(from_value(v)),
        Err(_) => None,
    }
}

/// The `serde_json` value that is made of a value of this crate.
pub uninterp spec fn json_value(j: JsonView) -> serde_json::Value;

/// The text of a `serde_json` value on one line.
pub uninterp spec fn compact_text(v: serde_json::Value) -> Seq<char>;

/// The text of a `serde_json` value with one member or item per line.
pub uninterp spec fn pretty_text(v: serde_json::Value) -> Seq<char>;

/// A key that `serde_json` keeps for itself: it does not read an object that
/// begins with it as an object.
pub const RESERVED_KEY: &'static str = "$serde_json::private::RawValue";

/// A value that its text gives back exactly: no number has a fraction, what is
/// called negative is, the keys of every object ascend and none is reserved, and
/// at most `depth` arrays and objects stand inside one another.
pub open spec fn is_canonical(j: JsonView, depth: nat) -> bool
    decreases depth,
{
    match j {
        JsonView::Int(n) => n < 0,
        JsonView::Real(_) => false,
        JsonView::Array(items) => depth > 0 && forall|i: int|
            0 <= i < items.len() ==> is_canonical(#[trigger] items[i], (depth - 1) as nat),
        JsonView::Object(members) => {
            &&& depth > 0
            &&& forall|i: int|
                0 <= i < members.len() ==> is_canonical(
                    (#[trigger] members[i]).1,
                    (depth - 1) as nat,
                ) && members[i].0 != RESERVED_KEY@
            &&& forall|i: int, k: int|
                0 <= i < k < members.len() ==> text::precedes(
                    (#[trigger] members[i]).0,
                    (#[trigger] members[k]).0,
                )
        },
        _ => true,
    }
}

/// How deep a value may be nested for its text to be known to give it back;
/// `serde_json` reads somewhat deeper ones too.
pub const EXACT_DEPTH: usize = 100;

/// Moves a value of this crate into a `serde_json::Value`, variant by variant.
/// `serde_json` keeps the members of an object by key, the last one where a
/// key occurs twice, and has no number for a text that is not one. A canonical
/// value is kept as it is.
#[verifier::external_body]
fn to_value(j: &Json) -> (r: serde_json::Value)
    ensures
        r == json_value(j@),
        is_canonical(j@, EXACT_DEPTH as nat) ==> value_content(r) == j@,
{
    match j {
        Json::Null => serde_json::Value::Null,
        Json::Bool(b) => serde_json::Value::from(*b),
        Json::UInt(n) => serde_json::Value::from(*n),
        Json::Int(n) => serde_json::Value::from(*n),
        Json::Real(s) => s.parse().map_or(serde_json::Value::Null, serde_json::Value::Number),
        Json::Text(s) => serde_json::Value::from(s.as_str()),
        Json::Array(a) => a.iter().map(to_value).collect(),
        Json::Object(m) => m.iter().map(|(k, v)| (k.clone(), to_value(v))).collect(),
    }
}

/// `serde_json::Value::to_string` gives the compact text. That of a canonical
/// value parses back to it; a fraction may be read with another last digit, an
/// object that begins with the reserved key is read as something else, and
/// reading stops at a depth of 128.
#[verifier::external_body]
fn value_text(v: &serde_json::Value) -> (r: String)
    ensures
        r@ == compact_text(*v),
        is_canonical(value_content(*v), EXACT_DEPTH as nat) ==> json_parse(r@) == Some(
            value_content(*v),
        ),
{
    v.to_string()
}

/// `serde_json::to_string_pretty` gives the text with line breaks. The keys of a
/// `serde_json::Value` are texts, and writing into memory does not fail.
#[verifier::external_body]
fn value_text_pretty(v: &serde_json::Value) -> (r: Result<String, serde_json::Error>)
    ensures
        match r {
            Ok(s) => s@ == pretty_text(*v),
            Err(_) => false,
        },
{
    serde_json::to_string_pretty(v)
}

/// The text of a value on one line.
pub open spec fn json_text(j: JsonView) -> Seq<char> {
    compact_text(json_value(j))
}

/// The text of a value on one line. A canonical value can be parsed back from
/// it.
pub fn to_text(j: &Json) -> (r: String)
    ensures
        r@ == json_text(j@),
        is_canonical(j@, EXACT_DEPTH as nat) ==> json_parse(r@) == Some(j@),
{
    value_text(&to_value(j))
}

/// The text of a value with one member or item per line.
pub fn to_text_pretty(j: &Json) -> (r: String)
    ensures
        r@ == pretty_text(json_value(j@)),
{
    match value_text_pretty(&to_value(j)) {
        Ok(s) => s,
        Err(_) => String::new(),
    }
}

/// The lower-case hexadecimal digit of value `d`.
pub open spec fn hex_digit(d: int) -> char {
    if d < 10 {
        (48 + d) as char
    } else {
        (87 + d) as char
    }
}

/// How a character is written inside a JSON string.
pub open spec fn escaped(c: char) -> Seq<char> {
    if c == '"' {
        seq!['\\', '"']
    } else if c == '\\' {
        seq!['\\', '\\']
    } else if c == '\u{8}' {
        seq!['\\', 'b']
    } else if c == '\t' {
        seq!['\\', 't']
    } else if c == '\n' {
        seq!['\\', 'n']
    } else if c == '\u{c}' {
        seq!['\\', 'f']
    } else if c == '\r' {
        seq!['\\', 'r']
    } else if (c as u32) < 32 {
        seq!['\\', 'u', '0', '0', hex_digit(c as int / 16), hex_digit(c as int % 16)]
    } else {
        seq![c]
    }
}

/// The characters of `s` as they are written inside a JSON string.
pub open spec fn escaped_all(s: Seq<char>) -> Seq<char>
    decreases s.len(),
{
    if s.len() == 0 {
        Seq::<char>::empty()
    } else {
        escaped_all(s.drop_last()) + escaped(s.last())
    }
}

/// `s` as a JSON string.
pub open spec fn quoted(s: Seq<char>) -> Seq<char> {
    seq!['"'] + escaped_all(s) + seq!['"']
}

/// `serde_json::to_string` of a text: the text in quotes, with quotes,
/// backslashes and control characters escaped. Writing into memory does not
/// fail.
#[verifier::external_body]
fn string_text(s: &str) -> (r: Result<String, serde_json::Error>)
    ensures
        match r {
            Ok(t) => t@ == quoted(s@),
            Err(_) => false,
        },
{
    serde_json::to_string(s)
}

/// `s` as a JSON string.
pub fn quote(s: &str) -> (r: String)
    ensures
        r@ == quoted(s@),
{
    match string_text(s) {
        Ok(t) => t,
        Err(_) => String::new(),
    }
}

/// Only a text is read as a text, and only an array as an array: whole, as they
/// are.
pub proof fn law_values_are_read_as_what_they_are(j: JsonView, s: Seq<char>, items: Seq<JsonView>)
    ensures
        JsonView::Text(s).text() == Some(s),
        !(j is Text) ==> j.text() is None,
        JsonView::Array(items).items() == Some(items),
        !(j is Array) ==> j.items() is None,
        !(j is Object) ==> j.get(s) is None && j.text_at(s) is None,
{
}

/// A quoted text is the text between two quotes, with each character written for
/// itself in turn; most of them are written as they are.
pub proof fn law_quoted_texts(a: Seq<char>, b: Seq<char>, c: char)
    ensures
        quoted(a).len() >= 2 && quoted(a)[0] == '"' && quoted(a).last() == '"',
        quoted(a + b) == quoted(a).drop_last() + quoted(b).skip(1),
        c as u32 >= 32 && c != '"' && c != '\\' ==> quoted(seq![c]) == seq!['"', c, '"'],
        quoted(Seq::<char>::empty()) == seq!['"', '"'],
{
    lemma_escaped_all(a, b);
    assert(quoted(a).drop_last() =~= seq!['"'] + escaped_all(a));
    assert(quoted(b).skip(1) =~= escaped_all(b) + seq!['"']);
    assert(seq![c].drop_last() =~= Seq::<char>::empty());
    assert(escaped_all(seq![c].drop_last()) =~= Seq::<char>::empty());
    assert(escaped_all(seq![c]) =~= escaped(c));
    assert(quoted(a + b) =~= quoted(a).drop_last() + quoted(b).skip(1));
    if c as u32 >= 32 && c != '"' && c != '\\' {
        assert(quoted(seq![c]) =~= seq!['"', c, '"']);
    }
    assert(quoted(Seq::<char>::empty()) =~= seq!['"', '"']);
}

proof fn lemma_escaped_all(a: Seq<char>, b: Seq<char>)
    ensures
        escaped_all(a + b) == escaped_all(a) + escaped_all(b),
    decreases b.len(),
{
    if b.len() == 0 {
        assert(a + b =~= a);
    } else {
        lemma_escaped_all(a, b.drop_last());
        assert((a + b).drop_last() =~= a + b.drop_last());
        assert((a + b).last() == b.last());
        assert(escaped_all(a + b) =~= escaped_all(a) + escaped_all(b));
    }
}

} // verus!
