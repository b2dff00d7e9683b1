//! The search tool and its pluggable backend.

use crate::req::types::request::{FunctionDef, Tool, ToolView};
use crate::tool::ToolError;
use crate::text;
use std::sync::Arc;
use vstd::prelude::*;
use vstd::string::StringExecFns;

pub mod laws;

verus! {

/// The default cap on the number of [`SearchHit`]s a query returns when the
/// caller does not request a specific `limit`.
pub const DEFAULT_LIMIT: usize = 5;

/// The hard upper bound on a query's `limit`.
pub const MAX_LIMIT: usize = 25;

/// An error raised while serving a search query.
#[derive(Debug, Clone, PartialEq, Eq)]
#[non_exhaustive]
pub enum SearchError {
    /// The query was empty or otherwise unusable.
    InvalidQuery(String),
    /// The underlying search backend failed.
    Backend(String),
}

impl SearchError {
    /// What the error says.
    pub open spec fn says(self) -> Seq<char> {
        match self {
            SearchError::InvalidQuery(m) => "invalid search query: "@ + m@,
            SearchError::Backend(m) => "search backend failed: "@ + m@,
        }
    }

    /// What the error says.
    pub fn message(&self) -> (s: String)
        ensures
            s@ == self.says(),
    {
        match self {
            SearchError::InvalidQuery(m) => {
                let mut s = "invalid search query: ".to_owned();
                s.append(m.as_str());
                s
            },
            SearchError::Backend(m) => {
                let mut s = "search backend failed: ".to_owned();
                s.append(m.as_str());
                s
            },
        }
    }
}

/// A single search result: a titled, linked snippet of external material.
#[derive(Debug, Clone, PartialEq, Eq)]
pub struct SearchHit {
    /// The result's display title.
    pub title: String,
    /// The result's canonical URL (or other locator the backend uses).
    pub url: String,
    /// A short extract or summary of the result's content.
    pub snippet: String,
}

/// The outcome of a search: the echoed query, whether a real backend served it,
/// and the ranked [`SearchHit`]s.
#[derive(Debug, Clone, PartialEq, Eq)]
pub struct SearchResults {
    /// The query these results answer.
    pub query: String,
    /// `true` when a real search backend served the query.
    pub configured: bool,
    /// The ranked results. Always empty when `configured` is `false`.
    pub hits: Vec<SearchHit>,
    /// An optional human-readable note (e.g. the unconfigured explanation).
    pub note: Option<String>,
}

impl SearchResults {
    /// Whether these are the results for `query` where no backend is configured.
    pub open spec fn says_unconfigured(self, query: Seq<char>) -> bool {
        &&& self.query@ == query
        &&& !self.configured
        &&& self.hits@.len() == 0
        &&& self.note matches Some(note)
        &&& note@ == StubProvider::UNCONFIGURED_NOTE@
    }

    /// Builds a results set served by a real backend, carrying `hits`.
    pub fn found(query: &str, hits: Vec<SearchHit>) -> (r: Self)
        ensures
            r.query@ == query@,
            r.configured,
            r.hits == hits,
            r.note is None,
    {
        SearchResults { query: query.to_owned(), configured: true, hits, note: None }
    }

    /// Builds the canonical "no search backend configured" results set for
    /// `query`.
    pub fn unconfigured(query: &str) -> (r: Self)
        ensures
            r.says_unconfigured(query@),
    {
        SearchResults {
            query: query.to_owned(),
            configured: false,
            hits: Vec::new(),
            note: Some(StubProvider::UNCONFIGURED_NOTE.to_owned()),
        }
    }
}

/// A web / reference search backend: a query in, ranked [`SearchHit`]s out.
pub trait SearchProvider: Send + Sync {
    /// A short, stable identifier for this backend (e.g. `"stub"`, `"mcp"`).
    fn name(&self) -> &str;

    /// Runs `query`, which is not blank, and returns at most `limit` ranked hits.
    fn search(&self, query: &str, limit: usize) -> Result<SearchResults, SearchError>
        requires
            query@.len() > 0,
            1 <= limit <= MAX_LIMIT,
    ;
}

/// The default, **no-network** [`SearchProvider`]: every query is answered with
/// [`SearchResults::unconfigured`].
#[derive(Debug, Clone, Copy, Default)]
pub struct StubProvider;

impl StubProvider {
    /// The note attached to every [`StubProvider`] result, explaining that no
    /// real search backend is wired.
    pub const UNCONFIGURED_NOTE: &'static str = "no search backend configured: this build has no MCP search provider wired, so web/reference search is unavailable. Connect an MCP search server and supply it as a SearchProvider to enable it.";

    /// Creates a stub provider.
    pub fn new() -> (provider: Self)
        ensures
            provider == StubProvider,
    {
        StubProvider
    }
}

impl SearchProvider for StubProvider {
    fn name(&self) -> (name: &str)
        ensures
            name@ == "stub"@,
    {
        "stub"
    }

    fn search(&self, query: &str, limit: usize) -> (r: Result<SearchResults, SearchError>)
        ensures
            r matches Ok(results) && results.says_unconfigured(query@),
    {
        Ok(SearchResults::unconfigured(query))
    }
}

/// What `search` is for.
pub const SEARCH_DESCRIPTION: &'static str = "Search the web / reference material for a query, returning titled, linked snippets. This reaches OUTSIDE the workspace (via a third-party search backend) and is distinct from `find`, which only scans the local articles you are writing. If no search backend is configured for this session the result says so explicitly (an empty result with a note) — treat that as 'search unavailable here', not 'nothing found'.";

/// The parameters of `search`, as a JSON Schema. The bounds are [`MAX_LIMIT`] and
/// [`DEFAULT_LIMIT`].
pub const SEARCH_PARAMETERS: &'static str = r#"{"properties":{"limit":{"description":"Maximum number of results to return (1..=25; defaults to 5).","type":"integer"},"query":{"description":"What to search for (a natural-language query or keywords).","type":"string"}},"required":["query"],"type":"object"}"#;

/// The native **search** tool: it delegates to a [`SearchProvider`].
pub struct SearchTool<P: SearchProvider> {
    provider: Arc<P>,
}

impl<P: SearchProvider> SearchTool<P> {
    /// The backing provider.
    pub closed spec fn backend(&self) -> P {
        *self.provider
    }

    /// Creates a search tool backed by `provider`.
    pub fn new(provider: Arc<P>) -> (tool: Self)
        ensures
            tool.backend() == *provider,
    {
        SearchTool { provider }
    }

    /// The tool's name.
    pub fn name(&self) -> (name: &'static str)
        ensures
            name@ == "search"@,
    {
        "search"
    }

    /// The tool's definition, the same for every provider.
    pub fn schema(&self) -> (tool: Tool)
        ensures
            tool@ == (ToolView {
                name: "search"@,
                description: Some(SEARCH_DESCRIPTION@),
                parameters: Some(SEARCH_PARAMETERS@),
            }),
    {
        Tool::function(
            FunctionDef {
                name: "search".to_owned(),
                description: Some(SEARCH_DESCRIPTION.to_owned()),
                parameters: Some(SEARCH_PARAMETERS.to_owned()),
            },
        )
    }

    /// The [`name`](SearchProvider::name) of the backing provider.
    pub fn provider_name(&self) -> (name: &str)
        ensures
            call_ensures(P::name, (&self.backend(),), name),
    {
        self.provider.name()
    }

    /// Runs a query: a blank one is rejected; else the provider is asked with the
    /// trimmed query and the limit brought into `1..=`[`MAX_LIMIT`], and what it
    /// answers is handed on by [`answer`].
    pub fn call(&self, query: &str, limit: Option<usize>) -> (r: Result<SearchResults, ToolError>)
        ensures
            match prepared(query@, limit) {
                None => r matches Err(ToolError::InvalidArgs(m)) && m@ == BLANK_QUERY@,
                Some((q, n)) => exists|asked: &str, reply: Result<SearchResults, SearchError>|
                    {
                        &&& asked@ == q
                        &&& #[trigger] call_ensures(P::search, (&self.backend(), asked, n), reply)
                        &&& answered(reply, n, r)
                    },
            },
    {
        match prepare(query, limit) {
            Err(e) => Err(e),
            Ok((asked, n)) => {
                let q = asked.as_str();
                let reply = self.provider.search(q, n);
                assert(call_ensures(P::search, (&self.backend(), q, n), reply));
                answer(reply, n)
            },
        }
    }
}

impl SearchTool<StubProvider> {
    /// Creates a search tool backed by the no-network [`StubProvider`]: present and
    /// callable, but every query that is not blank is answered with the "no search
    /// backend configured" result.
    pub fn with_stub() -> (tool: Self)
        ensures
            tool.backend() == StubProvider,
            forall|query: &str, limit: Option<usize>, r: Result<SearchResults, ToolError>| #[trigger]
                call_ensures(SearchTool::<StubProvider>::call, (&tool, query, limit), r) ==> match prepared(
                    query@,
                    limit,
                ) {
                    None => r matches Err(ToolError::InvalidArgs(m)) && m@ == BLANK_QUERY@,
                    Some((asked, _)) => r matches Ok(results) && results.says_unconfigured(asked),
                },
    {
        SearchTool::new(Arc::new(StubProvider::new()))
    }
}

/// What a blank query is rejected with.
pub const BLANK_QUERY: &'static str = "query must not be empty";

/// The requested limit brought into `1..=`[`MAX_LIMIT`]; [`DEFAULT_LIMIT`] where
/// none was requested.
pub open spec fn clamped_limit(limit: Option<usize>) -> usize {
    match limit {
        None => DEFAULT_LIMIT,
        Some(n) => if n < 1 {
            1
        } else if n > MAX_LIMIT {
            MAX_LIMIT
        } else {
            n
        },
    }
}

/// What the provider is asked, unless the query is blank.
pub open spec fn prepared(query: Seq<char>, limit: Option<usize>) -> Option<(Seq<char>, usize)> {
    if text::trimmed(query).len() == 0 {
        None
    } else {
        Some((text::trimmed(query), clamped_limit(limit)))
    }
}

/// What the provider is to be asked, unless the query is blank.
pub fn prepare(query: &str, limit: Option<usize>) -> (r: Result<(String, usize), ToolError>)
    ensures
        match prepared(query@, limit) {
            None => r matches Err(ToolError::InvalidArgs(m)) && m@ == BLANK_QUERY@,
            Some((q, n)) => r matches Ok((asked, m)) && asked@ == q && m == n,
        },
        r matches Ok((asked, m)) ==> asked@.len() > 0 && 1 <= m <= MAX_LIMIT,
{
    let asked = text::trim(query);
    if asked.as_str().is_empty() {
        return Err(ToolError::InvalidArgs(BLANK_QUERY.to_owned()));
    }
    let wanted: usize = match limit {
        Some(n) => n,
        None => DEFAULT_LIMIT,
    };
    let n: usize = if wanted < 1 {
        1
    } else if wanted > MAX_LIMIT {
        MAX_LIMIT
    } else {
        wanted
    };
    Ok((asked, n))
}

/// What the tool makes of the provider's reply: no more than `limit` hits, or the
/// error as a tool error.
pub open spec fn answered(
    reply: Result<SearchResults, SearchError>,
    limit: usize,
    r: Result<SearchResults, ToolError>,
) -> bool {
    match reply {
        Ok(results) => {
            &&& r matches Ok(capped)
            &&& capped.query == results.query
            &&& capped.configured == results.configured
            &&& capped.note == results.note
            &&& capped.hits@ == if results.hits@.len() <= limit {
                results.hits@
            } else {
                results.hits@.take(limit as int)
            }
        },
        Err(SearchError::InvalidQuery(m)) => r == Err::<SearchResults, ToolError>(
            ToolError::InvalidArgs(m),
        ),
        Err(SearchError::Backend(m)) => r matches Err(ToolError::Other(text)) && text@
            == "search backend: "@ + m@,
    }
}

/// Maps a [`SearchError`] onto the [`ToolError`] the model sees.
fn search_error_to_tool(err: SearchError) -> (e: ToolError)
    ensures
        match err {
            SearchError::InvalidQuery(m) => e == ToolError::InvalidArgs(m),
            SearchError::Backend(m) => e matches ToolError::Other(text) && text@
                == "search backend: "@ + m@,
        },
{
    match err {
        SearchError::InvalidQuery(m) => ToolError::InvalidArgs(m),
        SearchError::Backend(m) => {
            let mut s = "search backend: ".to_owned();
            s.append(m.as_str());
            ToolError::Other(s)
        },
    }
}

/// What the tool makes of the provider's reply.
pub fn answer(reply: Result<SearchResults, SearchError>, limit: usize) -> (r: Result<
    SearchResults,
    ToolError,
>)
    ensures
        answered(reply, limit, r),
{
    match reply {
        Ok(results) => {
            let mut capped = results;
            capped.hits.truncate(limit);
            assert(results.hits@.len() > limit ==> capped.hits@ == results.hits@.take(
                limit as int,
            ));
            assert(results.hits@.len() == limit ==> capped.hits@ == results.hits@);
            Ok(capped)
        },
        Err(e) => Err(search_error_to_tool(e)),
    }
}

/// Whatever the provider answers, no more hits than the limit come back, and the
/// limit is between 1 and [`MAX_LIMIT`].
pub proof fn law_hits_never_exceed_the_limit(
    reply: Result<SearchResults, SearchError>,
    limit: Option<usize>,
    r: Result<SearchResults, ToolError>,
)
    requires
        answered(reply, clamped_limit(limit), r),
    ensures
        r matches Ok(results) ==> results.hits@.len() <= clamped_limit(limit),
        1 <= clamped_limit(limit) <= MAX_LIMIT,
{
}

} // verus!
