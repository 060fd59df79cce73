//! TOML tables, as the `toml` crate holds them.

use crate::text;
use vstd::prelude::*;

verus! {

/// A table of the `toml` crate.
#[verifier::external_type_specification]
#[verifier::external_body]
#[verifier::reject_recursive_types(K)]
#[verifier::reject_recursive_types(V)]
pub struct ExTomlMap<K, V>(toml::map::Map<K, V>);

/// A value of the `toml` crate.
#[verifier::external_type_specification]
#[verifier::external_body]
pub struct ExTomlValue(toml::Value);

/// Why a text could not be parsed.
#[verifier::external_type_specification]
#[verifier::external_body]
pub struct ExTomlDeError(toml::de::Error);

/// Why a table could not be written.
#[verifier::external_type_specification]
#[verifier::external_body]
pub struct ExTomlSerError(toml::ser::Error);

/// The values that a table holds, by key.
pub uninterp spec fn table_content(t: toml::map::Map<String, toml::Value>) -> Map<
    Seq<char>,
    toml::Value,
>;

/// What the table in a value holds; none where the value is not a table.
pub uninterp spec fn value_table(v: toml::Value) -> Option<Map<Seq<char>, toml::Value>>;

/// What the table in a TOML text holds, or what the error says.
pub uninterp spec fn toml_parse(s: Seq<char>) -> Result<Map<Seq<char>, toml::Value>, Seq<char>>;

/// What an error says.
pub uninterp spec fn error_message(e: toml::de::Error) -> Seq<char>;

/// The text of a table that holds the given values; none where they cannot be
/// written.
pub uninterp spec fn toml_text(content: Map<Seq<char>, toml::Value>) -> Option<Seq<char>>;

/// `keys` are the keys of `content`, in ascending order.
pub open spec fn is_key_list(keys: Seq<Seq<char>>, content: Map<Seq<char>, toml::Value>) -> bool {
    &&& forall|i: int, k: int|
        0 <= i < k < keys.len() ==> text::precedes(#[trigger] keys[i], #[trigger] keys[k])
    &&& forall|key: Seq<char>| #[trigger] content.contains_key(key) <==> keys.contains(key)
}

/// The keys of a table in ascending order.
pub open spec fn key_list(content: Map<Seq<char>, toml::Value>) -> Seq<Seq<char>> {
    choose|keys: Seq<Seq<char>>| is_key_list(keys, content)
}

/// A table has only one list of keys in ascending order.
pub proof fn lemma_key_list(keys: Seq<Seq<char>>, content: Map<Seq<char>, toml::Value>)
    requires
        is_key_list(keys, content),
    ensures
        key_list(content) == keys,
{
    let other = key_list(content);
    assert(is_key_list(other, content));
    assert forall|p: int| 0 <= p < keys.len() && p < other.len() implies keys[p] == other[p] by {
        lemma_lists_agree(keys, other, content, p);
    }
    lemma_no_more(keys, other, content);
    lemma_no_more(other, keys, content);
    assert(other =~= keys);
}

proof fn lemma_no_more(
    a: Seq<Seq<char>>,
    b: Seq<Seq<char>>,
    content: Map<Seq<char>, toml::Value>,
)
    requires
        is_key_list(a, content),
        is_key_list(b, content),
    ensures
        b.len() <= a.len(),
{
    if a.len() < b.len() {
        let extra = b[a.len() as int];
        assert(b.contains(extra));
        assert(content.contains_key(extra));
        let r = choose|r: int| 0 <= r < a.len() && a[r] == extra;
        lemma_lists_agree(a, b, content, r);
        text::lemma_precedes_total(b[r], b[a.len() as int]);
    }
}

proof fn lemma_lists_agree(
    a: Seq<Seq<char>>,
    b: Seq<Seq<char>>,
    content: Map<Seq<char>, toml::Value>,
    p: int,
)
    requires
        is_key_list(a, content),
        is_key_list(b, content),
        0 <= p < a.len(),
        p < b.len(),
    ensures
        a[p] == b[p],
    decreases p,
{
    assert forall|q: int| 0 <= q < p implies #[trigger] a[q] == b[q] by {
        lemma_lists_agree(a, b, content, q);
    }
    assert(a.contains(a[p]));
    assert(b.contains(b[p]));
    assert(content.contains_key(a[p]));
    assert(content.contains_key(b[p]));
    let q = choose|q: int| 0 <= q < b.len() && b[q] == a[p];
    let r = choose|r: int| 0 <= r < a.len() && a[r] == b[p];
    text::lemma_precedes_total(a[p], b[p]);
    if q < p {
        text::lemma_precedes_total(a[q], a[p]);
    }
    if r < p {
        text::lemma_precedes_total(b[r], b[p]);
    }
}

/// Parsing a text as a `toml::Table`: the outcome depends on the text alone.
#[verifier::external_body]
pub(crate) fn parse_table(s: &str) -> (r: Result<
    toml::map::Map<String, toml::Value>,
    toml::de::Error,
>)
    ensures
        match r {
            Ok(t) => toml_parse(s@) == Ok::<_, Seq<char>>(table_content(t)),
            Err(e) => toml_parse(s@) == Err::<Map<Seq<char>, toml::Value>, _>(error_message(e)),
        },
{
    s.parse::<toml::Table>()
}

/// `to_string` of a `toml::de::Error`.
#[verifier::external_body]
pub(crate) fn error_text(e: &toml::de::Error) -> (r: String)
    ensures
        r@ == error_message(*e),
{
    e.to_string()
}

/// `Map::keys`: every key once, in the lexicographic order in which a table
/// keeps its entries.
#[verifier::external_body]
pub(crate) fn table_keys(t: &toml::map::Map<String, toml::Value>) -> (r: Vec<String>)
    ensures
        is_key_list(text::views(r@), table_content(*t)),
{
    t.keys().cloned().collect()
}

/// `Map::get`: the value under a key.
#[verifier::external_body]
pub(crate) fn table_get<'a>(t: &'a toml::map::Map<String, toml::Value>, key: &str) -> (r: Option<
    &'a toml::Value,
>)
    ensures
        match r {
            Some(v) => table_content(*t).contains_key(key@) && *v == table_content(*t)[key@],
            None => !table_content(*t).contains_key(key@),
        },
{
    t.get(key)
}

/// `Map::contains_key`: whether there is a value under a key.
#[verifier::external_body]
pub(crate) fn table_contains(t: &toml::map::Map<String, toml::Value>, key: &str) -> (r: bool)
    ensures
        r == table_content(*t).contains_key(key@),
{
    t.contains_key(key)
}

/// `Map::remove`: takes the value under a key out of the table.
#[verifier::external_body]
pub(crate) fn table_remove(t: &mut toml::map::Map<String, toml::Value>, key: &str) -> (r: Option<
    toml::Value,
>)
    ensures
        table_content(*final(t)) == table_content(*old(t)).remove(key@),
        match r {
            Some(v) => table_content(*old(t)).contains_key(key@) && v == table_content(
                *old(t),
            )[key@],
            None => !table_content(*old(t)).contains_key(key@),
        },
{
    t.remove(key)
}

/// `Map::insert`: puts a value under a key, in the place of one that is there.
#[verifier::external_body]
pub(crate) fn table_insert(
    t: &mut toml::map::Map<String, toml::Value>,
    key: String,
    value: toml::Value,
)
    ensures
        table_content(*final(t)) == table_content(*old(t)).insert(key@, value),
{
    t.insert(key, value);
}

/// `Value::as_table`: the table in a value.
#[verifier::external_body]
pub(crate) fn as_table(v: &toml::Value) -> (r: Option<&toml::map::Map<String, toml::Value>>)
    ensures
        match r {
            Some(t) => value_table(*v) == Some(table_content(*t)),
            None => value_table(*v) is None,
        },
{
    v.as_table()
}

/// The table in a `toml::Value`, taken out of it.
#[verifier::external_body]
pub(crate) fn into_table(v: toml::Value) -> (r: Option<toml::map::Map<String, toml::Value>>)
    ensures
        match r {
            Some(t) => value_table(v) == Some(table_content(t)),
            None => value_table(v) is None,
        },
{
    match v {
        toml::Value::Table(t) => Some(t),
        _ => None,
    }
}

/// `toml::to_string_pretty` of a table: the outcome depends on the values that
/// it holds alone.
#[verifier::external_body]
pub(crate) fn table_text(t: &toml::map::Map<String, toml::Value>) -> (r: Result<
    String,
    toml::ser::Error,
>)
    ensures
        match r {
            Ok(s) => toml_text(table_content(*t)) == Some(s@),
            Err(_) => toml_text(table_content(*t)) is None,
        },
{
    toml::to_string_pretty(t)
}

} // verus!
