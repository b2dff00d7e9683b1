//! What holds of searching.

use crate::search;
use crate::search::{SearchError, SearchResults};
use crate::text;
use crate::tool::ToolError;
use vstd::prelude::*;

verus! {

/// A query goes out without white space around it, and asks for as many hits as the
/// caller wants, at least one and at most twenty-five, and for five where nothing is
/// said; a blank one is refused.
pub proof fn law_a_query_is_trimmed_and_limited(
    query: &str,
    limit: Option<usize>,
    trimmed: String,
    r: Result<(String, usize), ToolError>,
)
    requires
        call_ensures(text::trim, (query,), trimmed),
        call_ensures(search::prepare, (query, limit), r),
    ensures
        r is Err <==> trimmed@.len() == 0,
        r matches Err(e) ==> (e matches ToolError::InvalidArgs(m) && m@
            == "query must not be empty"@),
        r matches Ok((asked, n)) ==> {
            &&& asked@ == trimmed@
            &&& limit is None ==> n == 5
            &&& limit matches Some(l) ==> {
                &&& 1 <= l <= 25 ==> n == l
                &&& l < 1 ==> n == 1
                &&& l > 25 ==> n == 25
            }
        },
{
}

/// A reply is handed on with its first hits, as many as were asked for; an error of
/// the backend is handed on as the tool's.
pub proof fn law_the_first_hits_are_handed_on(
    reply: Result<SearchResults, SearchError>,
    limit: usize,
    r: Result<SearchResults, ToolError>,
)
    requires
        call_ensures(search::answer, (reply, limit), r),
    ensures
        r is Ok <==> reply is Ok,
        reply matches Ok(results) ==> {
            &&& r->Ok_0.query@ == results.query@
            &&& r->Ok_0.configured == results.configured
            &&& r->Ok_0.note == results.note
            &&& r->Ok_0.hits@.len() <= limit
            &&& r->Ok_0.hits@.len() <= results.hits@.len()
            &&& r->Ok_0.hits@.len() == limit || r->Ok_0.hits@.len() == results.hits@.len()
            &&& forall|i: int|
                0 <= i < r->Ok_0.hits@.len() ==> #[trigger] r->Ok_0.hits@[i] == results.hits@[i]
        },
        reply matches Err(SearchError::InvalidQuery(m)) ==> (r->Err_0 matches ToolError::InvalidArgs(
            n,
        ) && n@ == m@),
        reply matches Err(SearchError::Backend(m)) ==> (r->Err_0 matches ToolError::Other(n) && n@
            == "search backend: "@ + m@),
{
}

/// What a failed search says names its kind and carries its details.
pub proof fn law_search_errors_say_what_happened(e: &SearchError, s: String)
    requires
        call_ensures(SearchError::message, (e,), s),
    ensures
        *e matches SearchError::InvalidQuery(m) ==> s@ == "invalid search query: "@ + m@,
        *e matches SearchError::Backend(m) ==> s@ == "search backend failed: "@ + m@,
{
}

} // verus!
