use mcp_rs::adapters::{
    extract_text_from_blocks, extract_title_from_page, graphql_outcome, linear_issue_found,
    notion_page_missing, linear_issue_id, linear_page_size,
    linear_resource_id, notion_database_id, notion_page_id, notion_resource_id, NotionBlock,
};
use mcp_rs::cli::{fetch_query, parse_filters, parse_source, parse_sources, source_from_lowercase};
use mcp_rs::domain::{DomainError, Query, QuerySource};
use mcp_rs::text::{same_text, split_at_first, starts_with, strip_prefix_or_keep};

fn strings(v: &[&str]) -> Vec<String> {
    v.iter().map(|s| s.to_string()).collect()
}

fn lookup<'a>(pairs: &'a [(String, String)], key: &str) -> Option<&'a str> {
    pairs.iter().find(|(k, _)| k == key).map(|(_, v)| v.as_str())
}

#[test]
fn parse_sources_maps_words_in_any_case() {
    let r = parse_sources(strings(&["notion", "LINEAR", "All", "other", "Notion"]));
    assert_eq!(
        r,
        vec![QuerySource::Notion, QuerySource::Linear, QuerySource::All, QuerySource::All, QuerySource::Notion]
    );
    assert!(parse_sources(Vec::new()).is_empty());
}

#[test]
fn parse_source_lowercases_first() {
    assert_eq!(parse_source("NoTiOn"), QuerySource::Notion);
    assert_eq!(source_from_lowercase("NoTiOn"), QuerySource::All);
    assert_eq!(source_from_lowercase("linear"), QuerySource::Linear);
}

#[test]
fn parse_filters_splits_at_first_equals() {
    let r = parse_filters(strings(&["database_id=abc", "expr=a=b", "noequals", "=empty", "blank="]));
    assert_eq!(r.len(), 4);
    assert_eq!(lookup(&r, "database_id"), Some("abc"));
    assert_eq!(lookup(&r, "expr"), Some("a=b"));
    assert_eq!(lookup(&r, ""), Some("empty"));
    assert_eq!(lookup(&r, "blank"), Some(""));
    assert_eq!(lookup(&r, "noequals"), None);
}

#[test]
fn parse_filters_later_value_wins() {
    let r = parse_filters(strings(&["k=1", "j=2", "k=3"]));
    assert_eq!(r.len(), 2);
    assert_eq!(lookup(&r, "k"), Some("3"));
    assert_eq!(lookup(&r, "j"), Some("2"));
    assert!(parse_filters(Vec::new()).is_empty());
}

#[test]
fn fetch_query_from_command_words() {
    let q = fetch_query("Linear", Some(5), strings(&["a=b"]));
    assert_eq!(q.source, QuerySource::Linear);
    assert_eq!(q.limit, Some(5));
    assert_eq!(q.filters, vec![("a".to_string(), "b".to_string())]);
    assert_eq!(fetch_query("anything", None, Vec::new()).source, QuerySource::All);
}

#[test]
fn text_helpers() {
    assert!(same_text("abc", "abc"));
    assert!(!same_text("abc", "abd"));
    assert!(!same_text("abc", "ab"));
    assert!(same_text("", ""));
    assert!(starts_with("notion_1", "notion_"));
    assert!(!starts_with("noti", "notion_"));
    assert!(starts_with("é_x", "é"));
    assert_eq!(strip_prefix_or_keep("linear_7", "linear_"), "7");
    assert_eq!(strip_prefix_or_keep("abc", "linear_"), "abc");
    assert_eq!(split_at_first("a=b=c", '='), Some(("a".to_string(), "b=c".to_string())));
    assert_eq!(split_at_first("ä=ö", '='), Some(("ä".to_string(), "ö".to_string())));
    assert_eq!(split_at_first("abc", '='), None);
}

fn block(kind: &str, parts: Option<Vec<Option<&str>>>) -> NotionBlock {
    NotionBlock {
        block_type: kind.to_string(),
        rich_text: parts.map(|v| v.into_iter().map(|p| p.map(|s| s.to_string())).collect()),
    }
}

#[test]
fn extract_text_of_blocks() {
    let blocks = vec![
        block("heading_1", Some(vec![Some("Title")])),
        block("paragraph", Some(vec![Some("one"), None, Some("two")])),
        block("bulleted_list_item", Some(vec![Some("a"), Some("b")])),
        block("image", Some(vec![Some("ignored")])),
        block("numbered_list_item", None),
        block("numbered_list_item", Some(vec![])),
        block("heading_3", Some(vec![])),
    ];
    assert_eq!(
        extract_text_from_blocks(&blocks),
        "Title\none\ntwo\n\u{e2}\u{20ac}\u{a2} ab\n\u{e2}\u{20ac}\u{a2} \n"
    );
    assert_eq!(extract_text_from_blocks(&Vec::new()), "");
}

#[test]
fn extract_title_takes_first_present() {
    let titles = vec![None, Some("First".to_string()), Some("Second".to_string())];
    assert_eq!(extract_title_from_page(&titles), "First");
    assert_eq!(extract_title_from_page(&vec![None, None]), "Untitled");
    assert_eq!(extract_title_from_page(&Vec::new()), "Untitled");
}

#[test]
fn resource_ids_round_trip() {
    assert_eq!(notion_resource_id("p1"), "notion_p1");
    assert_eq!(linear_resource_id("i9"), "linear_i9");
    assert_eq!(notion_page_id("notion_p1"), "p1");
    assert_eq!(notion_page_id("p1"), "p1");
    assert_eq!(linear_issue_id("linear_i9"), "i9");
    assert_eq!(linear_issue_id("notion_i9"), "notion_i9");
}

#[test]
fn linear_page_size_defaults_and_caps() {
    assert_eq!(linear_page_size(None), 50);
    assert_eq!(linear_page_size(Some(10)), 10);
    assert_eq!(linear_page_size(Some(250)), 250);
    assert_eq!(linear_page_size(Some(1000)), 250);
    assert_eq!(linear_page_size(Some(0)), 0);
}

#[test]
fn notion_database_id_is_required() {
    let q = Query {
        source: QuerySource::Notion,
        filters: vec![("x".to_string(), "1".to_string()), ("database_id".to_string(), "db".to_string())],
        limit: None,
    };
    assert_eq!(notion_database_id(&q).unwrap(), "db");
    let q = Query { source: QuerySource::Notion, filters: Vec::new(), limit: None };
    match notion_database_id(&q) {
        Err(DomainError::InvalidQuery(m)) => assert_eq!(m, "database_id required for Notion queries"),
        _ => panic!("expected an invalid query"),
    }
}

#[test]
fn graphql_errors_are_joined() {
    let r: Result<u32, DomainError> =
        graphql_outcome(Some(vec!["first".to_string(), "second".to_string(), "third".to_string()]), Some(1));
    match r {
        Err(DomainError::ProviderError(m)) => assert_eq!(m, "GraphQL errors: first, second, third"),
        _ => panic!("expected a provider error"),
    }
    let r: Result<u32, DomainError> = graphql_outcome(Some(vec!["only".to_string()]), None);
    match r {
        Err(DomainError::ProviderError(m)) => assert_eq!(m, "GraphQL errors: only"),
        _ => panic!("expected a provider error"),
    }
    let r: Result<u32, DomainError> = graphql_outcome(Some(Vec::new()), Some(3));
    match r {
        Err(DomainError::ProviderError(m)) => assert_eq!(m, "GraphQL errors: "),
        _ => panic!("expected a provider error"),
    }
}

#[test]
fn graphql_data_or_missing_data() {
    assert_eq!(graphql_outcome(None, Some(7u32)).unwrap(), 7);
    match graphql_outcome::<u32>(None, None) {
        Err(DomainError::ProviderError(m)) => assert_eq!(m, "No data in response"),
        _ => panic!("expected a provider error"),
    }
}

#[test]
fn not_found_replies() {
    match notion_page_missing("gone") {
        DomainError::ResourceNotFound(m) => assert_eq!(m, "Notion page not found: gone"),
        _ => panic!("expected not found"),
    }
    assert_eq!(linear_issue_found(Some(4u8), "i1").unwrap(), 4);
    match linear_issue_found::<u8>(None, "i1") {
        Err(DomainError::ResourceNotFound(m)) => assert_eq!(m, "Linear issue not found: i1"),
        _ => panic!("expected not found"),
    }
}

#[test]
fn fetch_query_keys_are_unique() {
    let q = fetch_query("notion", None, strings(&["database_id=a", "database_id=b"]));
    assert_eq!(q.filters.len(), 1);
    assert_eq!(notion_database_id(&q).unwrap(), "b");
    let q2 = q.clone();
    assert_eq!(q2.filters, q.filters);
}

#[test]
fn notion_database_id_takes_first_match() {
    let q = Query {
        source: QuerySource::Notion,
        filters: vec![("database_id".to_string(), "first".to_string()), ("database_id".to_string(), "second".to_string())],
        limit: None,
    };
    assert_eq!(notion_database_id(&q).unwrap(), "first");
}
