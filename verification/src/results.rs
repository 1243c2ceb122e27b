//! The results that filters report to the pipeline.
use vstd::prelude::*;

use praxis_filter::FilterResultSet;

verus! {

/// The results that one filter has reported: values under keys.
#[verifier::external_type_specification]
#[verifier::external_body]
pub struct ExFilterResultSet(FilterResultSet);

/// The values in a set of results, by their keys.
pub uninterp spec fn reported(results: FilterResultSet) -> Map<Seq<char>, Seq<char>>;

/// How many keys a set of results has room for.
pub open spec fn capacity() -> nat {
    128
}

/// There is room for a value under the key.
pub open spec fn has_room(results: Map<Seq<char>, Seq<char>>, key: Seq<char>) -> bool {
    results.dom().contains(key) || results.dom().len() < capacity()
}

/// A key that results can be reported under.
pub open spec fn is_key(text: Seq<char>) -> bool {
    &&& 1 <= text.len() <= 64
    &&& forall|i: int|
        0 <= i < text.len() ==> {
            ||| 'a' <= #[trigger] text[i] <= 'z'
            ||| 'A' <= text[i] <= 'Z'
            ||| '0' <= text[i] <= '9'
            ||| text[i] == '_'
            ||| text[i] == '-'
        }
}

/// A short text of printable ASCII characters.
pub open spec fn is_plain(text: Seq<char>) -> bool {
    &&& text.len() <= 256
    &&& forall|i: int| 0 <= i < text.len() ==> ' ' <= #[trigger] text[i] <= '~'
}

/// The words of the error for a set of results that is full.
pub open spec fn full_text() -> Seq<char> {
    "result set is full (max 128 entries)"@
}

/// `FilterResultSet::set` on a valid key and a plain value: it fails only for a
/// new key in a set that is full, which then stays as it is; otherwise the key
/// now has the value, and the others stay.
#[verifier::external_body]
pub(crate) fn set_result(
    results: &mut FilterResultSet,
    key: &'static str,
    value: &'static str,
) -> (outcome: Result<(), String>)
    requires
        is_key(key@),
        is_plain(value@),
    ensures
        outcome is Ok <==> has_room(reported(*old(results)), key@),
        outcome is Ok ==> reported(*final(results)) == reported(*old(results)).insert(key@, value@),
        outcome matches Err(detail) ==> detail@ == full_text() && *final(results) == *old(results),
{
    results.set(key, value).map_err(|e| e.to_string())
}

} // verus!
