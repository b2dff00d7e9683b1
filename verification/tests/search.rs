//! The search tool and its providers.

use std::sync::{Arc, Mutex};

use ai_write::search::{
    SearchError, SearchHit, SearchProvider, SearchResults, SearchTool, StubProvider,
    DEFAULT_LIMIT, MAX_LIMIT,
};
use ai_write::tool::ToolError;

/// Records the queries it saw and returns canned hits.
struct FakeProvider {
    hits: Vec<SearchHit>,
    seen: Mutex<Vec<(String, usize)>>,
}

impl FakeProvider {
    fn new(hits: Vec<SearchHit>) -> Self {
        FakeProvider {
            hits,
            seen: Mutex::new(Vec::new()),
        }
    }
}

impl SearchProvider for FakeProvider {
    fn name(&self) -> &str {
        "fake"
    }

    fn search(&self, query: &str, limit: usize) -> Result<SearchResults, SearchError> {
        self.seen.lock().unwrap().push((query.to_string(), limit));
        Ok(SearchResults::found(query, self.hits.clone()))
    }
}

/// Always fails.
struct FailingProvider;

impl SearchProvider for FailingProvider {
    fn name(&self) -> &str {
        "failing"
    }

    fn search(&self, _query: &str, _limit: usize) -> Result<SearchResults, SearchError> {
        Err(SearchError::Backend("connection refused".into()))
    }
}

fn hit(title: &str) -> SearchHit {
    SearchHit {
        title: title.to_string(),
        url: format!("https://example.com/{title}"),
        snippet: format!("snippet for {title}"),
    }
}

#[test]
fn stub_provider_returns_unconfigured_result() {
    let stub = StubProvider::new();
    let r = stub.search("anything", DEFAULT_LIMIT).unwrap();
    assert!(!r.configured);
    assert!(r.hits.is_empty());
    assert_eq!(r.note.as_deref(), Some(StubProvider::UNCONFIGURED_NOTE));
    assert_eq!(r.query, "anything");
}

#[test]
fn stub_tool_reports_unconfigured_explicitly() {
    let tool = SearchTool::with_stub();
    assert_eq!(tool.provider_name(), "stub");
    let out = tool.call("rust async", None).unwrap();
    assert!(!out.configured);
    assert!(out.hits.is_empty());
    assert_eq!(out.query, "rust async");
    assert!(out.note.unwrap().contains("no search backend configured"));
}

#[test]
fn search_schema_is_distinct_from_find() {
    let tool = SearchTool::with_stub();
    assert_eq!(tool.name(), "search");
    let schema = tool.schema();
    assert_eq!(schema.function.name, "search");
    // The description makes the find-vs-search distinction explicit.
    let desc = schema.function.description.unwrap();
    assert!(desc.contains("find"));
    assert!(desc.to_lowercase().contains("outside"));
}

#[test]
fn search_parameters_are_a_schema_with_the_limits() {
    let schema = SearchTool::with_stub().schema();
    let text = schema.function.parameters.unwrap();
    let v: serde_json::Value = serde_json::from_str(&text).unwrap();
    assert_eq!(v["type"], "object");
    assert_eq!(v["properties"]["query"]["type"], "string");
    assert_eq!(
        v["properties"]["limit"]["description"],
        format!("Maximum number of results to return (1..={MAX_LIMIT}; defaults to {DEFAULT_LIMIT}).")
    );
    assert_eq!(v["required"][0], "query");
    assert_eq!(v.to_string(), text);
}

#[test]
fn fake_provider_is_exercised_through_the_trait() {
    let provider = Arc::new(FakeProvider::new(vec![hit("a"), hit("b")]));
    let tool = SearchTool::new(provider.clone());
    assert_eq!(tool.provider_name(), "fake");

    let out = tool.call("  topic  ", Some(10)).unwrap();
    assert!(out.configured);
    assert_eq!(out.hits.len(), 2);
    assert_eq!(out.hits[0].title, "a");
    assert_eq!(out.hits[1].url, "https://example.com/b");

    // The trait saw the trimmed query and the requested (clamped) limit.
    let seen = provider.seen.lock().unwrap();
    assert_eq!(seen.len(), 1);
    assert_eq!(seen[0].0, "topic");
    assert_eq!(seen[0].1, 10);
}

#[test]
fn limit_defaults_and_clamps() {
    let provider = Arc::new(FakeProvider::new(Vec::new()));
    let tool = SearchTool::new(provider.clone());

    // No limit -> DEFAULT_LIMIT.
    tool.call("x", None).unwrap();
    // Oversized limit -> clamped to MAX_LIMIT.
    tool.call("x", Some(9999)).unwrap();
    // Zero -> clamped up to 1.
    tool.call("x", Some(0)).unwrap();

    let seen = provider.seen.lock().unwrap();
    assert_eq!(seen[0].1, DEFAULT_LIMIT);
    assert_eq!(seen[1].1, MAX_LIMIT);
    assert_eq!(seen[2].1, 1);
}

#[test]
fn hits_truncated_to_limit() {
    let provider = Arc::new(FakeProvider::new(vec![
        hit("a"),
        hit("b"),
        hit("c"),
        hit("d"),
    ]));
    let tool = SearchTool::new(provider);
    let out = tool.call("x", Some(2)).unwrap();
    assert_eq!(out.hits.len(), 2);
    assert_eq!(out.hits[1].title, "b");
}

#[test]
fn empty_query_rejected() {
    let tool = SearchTool::with_stub();
    let err = tool.call("   ", None).unwrap_err();
    assert!(matches!(err, ToolError::InvalidArgs(_)));
}

#[test]
fn backend_error_maps_to_tool_error() {
    let tool = SearchTool::new(Arc::new(FailingProvider));
    let err = tool.call("x", None).unwrap_err();
    match err {
        ToolError::Other(msg) => {
            assert!(msg.contains("connection refused"));
            assert_eq!(msg, "search backend: connection refused");
        }
        other => panic!("expected ToolError::Other, got {other:?}"),
    }
}

#[test]
fn search_error_display_is_descriptive() {
    assert!(SearchError::Backend("boom".into())
        .message()
        .contains("boom"));
    assert!(SearchError::InvalidQuery("empty".into())
        .message()
        .contains("empty"));
    assert_eq!(
        SearchError::Backend("boom".into()).message(),
        "search backend failed: boom"
    );
    assert_eq!(
        SearchError::InvalidQuery("empty".into()).message(),
        "invalid search query: empty"
    );
}
