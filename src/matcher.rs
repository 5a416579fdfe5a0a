//! Case-sensitive substring containment of a query in a response body.

use vstd::prelude::*;

verus! {

/// `q` occurs in `s` as a contiguous run of characters.
pub open spec fn has_substring(s: Seq<char>, q: Seq<char>) -> bool {
    exists|i: int| 0 <= i && i + q.len() <= s.len() && #[trigger] s.subrange(i, i + q.len()) == q
}

/// Relies on `str::contains` with a `&str` pattern: true exactly when the
/// pattern matches a sub-slice of the string.
#[verifier::external_body]
fn str_contains(s: &str, q: &str) -> (r: bool)
    ensures
        r == has_substring(s@, q@),
{
    s.contains(q)
}

/// Whether `query` occurs in `body`, characters compared exactly.
pub fn matches(body: &str, query: &str) -> (r: bool)
    ensures
        r == has_substring(body@, query@),
{
    str_contains(body, query)
}

/// The empty query occurs in every body, the empty body included.
pub proof fn lemma_empty_query_matches(body: Seq<char>)
    ensures
        has_substring(body, Seq::<char>::empty()),
{
    let q = Seq::<char>::empty();
    assert(body.subrange(0, 0 + q.len() as int) =~= q);
}

} // verus!
