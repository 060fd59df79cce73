//! Random identifiers.

use vstd::prelude::*;

verus! {

/// A lower-case hexadecimal digit.
pub open spec fn is_hex(c: char) -> bool {
    '0' <= c <= '9' || 'a' <= c <= 'f'
}

/// A random UUID in its hyphenated form: version 4, with the variant of RFC
/// 9562.
pub open spec fn is_uuid_v4(s: Seq<char>) -> bool {
    &&& s.len() == 36
    &&& forall|i: int|
        0 <= i < 36 ==> if i == 8 || i == 13 || i == 18 || i == 23 {
            #[trigger] s[i] == '-'
        } else {
            is_hex(s[i])
        }
    &&& s[14] == '4'
    &&& s[19] == '8' || s[19] == '9' || s[19] == 'a' || s[19] == 'b'
}

/// `uuid::Uuid::new_v4` as text: 36 characters, hexadecimal digits in lower case
/// with hyphens at the usual places, of version 4. The digits are random.
#[verifier::external_body]
pub(crate) fn random_id() -> (r: String)
    ensures
        is_uuid_v4(r@),
{
    uuid::Uuid::new_v4().to_string()
}

/// The text is a random identifier, as it was drawn.
pub closed spec fn is_drawn(s: Seq<char>) -> bool {
    exists|t: String| #[trigger] call_ensures(random_id, (), t) && t@ == s
}

/// A new random identifier.
pub(crate) fn new_id() -> (r: String)
    ensures
        is_uuid_v4(r@),
        is_drawn(r@),
{
    random_id()
}

} // verus!
