//! Ids for new notes.

use vstd::prelude::*;

verus! {

/// `c` is one of `0`..`9`, `a`..`f`.
pub open spec fn is_lower_hex(c: char) -> bool {
    ('0' <= c && c <= '9') || ('a' <= c && c <= 'f')
}

/// `s` has the shape of a random (version 4) UUID in its usual spelling:
/// 36 characters, hyphens after the 8th, 12th, 16th and 20th digit, lower-case
/// hexadecimal digits everywhere else, and `4` as the 13th digit.
pub open spec fn is_random_uuid_text(s: Seq<char>) -> bool {
    &&& s.len() == 36
    &&& s[8] == '-' && s[13] == '-' && s[18] == '-' && s[23] == '-'
    &&& forall|i: int|
        0 <= i < 36 && i != 8 && i != 13 && i != 18 && i != 23 ==> is_lower_hex(#[trigger] s[i])
    &&& s[14] == '4'
}

/// Draws a new id with `uuid::Uuid::new_v4` and spells it with the `Display`
/// of `uuid::Uuid`.
///
/// Trusted: the id is random, so nothing is claimed of its value beyond the
/// shape that every such spelling has. In particular it is not claimed to
/// differ from the ids drawn before it.
#[verifier::external_body]
pub(crate) fn fresh_item_id() -> (id: String)
    ensures
        is_random_uuid_text(id@),
{
    uuid::Uuid::new_v4().to_string()
}

} // verus!
