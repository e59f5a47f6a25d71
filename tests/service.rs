use mcp_rs::domain::{DomainError, Query, QuerySource, Resource, ResourceSource, Timestamp};
use mcp_rs::ports::ResourceProvider;
use mcp_rs::service::{collect_outcome, probe_step, route_of_id, ResourceService};
use std::cell::Cell;
use std::collections::HashMap;

fn resource(id: &str, title: &str) -> Resource {
    Resource {
        id: id.to_string(),
        source: ResourceSource::Custom("test".to_string()),
        title: title.to_string(),
        content: String::new(),
        metadata: HashMap::new(),
        created_at: Timestamp { seconds: 0, nanos: 0 },
        updated_at: Timestamp { seconds: 0, nanos: 0 },
    }
}

#[derive(Clone, Copy)]
enum Behaviour {
    Succeeds,
    Fails,
    NotFound,
    Invalid,
}

struct Mock {
    name: &'static str,
    behaviour: Behaviour,
    calls: Cell<usize>,
}

fn mock(name: &'static str, behaviour: Behaviour) -> Mock {
    Mock { name, behaviour, calls: Cell::new(0) }
}

impl Mock {
    fn answer<T>(&self, ok: T) -> Result<T, DomainError> {
        self.calls.set(self.calls.get() + 1);
        match self.behaviour {
            Behaviour::Succeeds => Ok(ok),
            Behaviour::Fails => Err(DomainError::ProviderError(format!("{} is down", self.name))),
            Behaviour::NotFound => Err(DomainError::ResourceNotFound(format!("{} has no such item", self.name))),
            Behaviour::Invalid => Err(DomainError::InvalidQuery("bad filters".to_string())),
        }
    }
}

impl ResourceProvider for Mock {
    fn fetch_resources(&self, _query: &Query) -> Result<Vec<Resource>, DomainError> {
        let id = format!("{}_1", self.name.to_lowercase());
        self.answer(vec![resource(&id, "A")])
    }

    fn fetch_resource_by_id(&self, id: &str) -> Result<Resource, DomainError> {
        self.answer(resource(id, self.name))
    }

    fn search(&self, query: &str) -> Result<Vec<Resource>, DomainError> {
        let id = format!("{}_{}", self.name.to_lowercase(), query);
        self.answer(vec![resource(&id, query)])
    }

    fn provider_name(&self) -> &'static str {
        self.name
    }
}

fn all_query() -> Query {
    Query { source: QuerySource::All, filters: Vec::new(), limit: None }
}

fn ids(v: &[Resource]) -> Vec<String> {
    v.iter().map(|r| r.id.clone()).collect()
}

#[test]
fn fetch_all_keeps_successes_and_skips_failures() {
    let mut service = ResourceService::new();
    service.add_provider(mock("alpha", Behaviour::Succeeds));
    service.add_provider(mock("beta", Behaviour::Fails));
    let found = service.fetch_resources(&all_query()).unwrap();
    assert_eq!(found.len(), 1);
    assert_eq!(found[0].id, "alpha_1");
    assert_eq!(found[0].title, "A");
}

#[test]
fn fetch_all_with_no_providers_is_empty() {
    let service: ResourceService<Mock> = ResourceService::new();
    let found = service.fetch_resources(&all_query()).unwrap();
    assert!(found.is_empty());
}

#[test]
fn fetch_unconfigured_provider_is_provider_error() {
    let mut service = ResourceService::new();
    service.add_provider(mock("alpha", Behaviour::Succeeds));
    let q = Query { source: QuerySource::Notion, filters: Vec::new(), limit: Some(3) };
    match service.fetch_resources(&q) {
        Err(DomainError::ProviderError(m)) => assert_eq!(m, "Notion provider not configured"),
        _ => panic!("expected a provider error"),
    }
    let q = Query { source: QuerySource::Linear, filters: Vec::new(), limit: None };
    match service.fetch_resources(&q) {
        Err(DomainError::ProviderError(m)) => assert_eq!(m, "Linear provider not configured"),
        _ => panic!("expected a provider error"),
    }
}

#[test]
fn fetch_named_provider_passes_its_error_through() {
    let mut service = ResourceService::new();
    service.add_provider(mock("Notion", Behaviour::Invalid));
    let q = Query { source: QuerySource::Notion, filters: Vec::new(), limit: None };
    match service.fetch_resources(&q) {
        Err(DomainError::InvalidQuery(m)) => assert_eq!(m, "bad filters"),
        _ => panic!("expected the provider's own error"),
    }
}

#[test]
fn fetch_named_provider_returns_its_result() {
    let mut service = ResourceService::new();
    service.add_provider(mock("Linear", Behaviour::Succeeds));
    service.add_provider(mock("alpha", Behaviour::Succeeds));
    let q = Query { source: QuerySource::Linear, filters: Vec::new(), limit: None };
    let found = service.fetch_resources(&q).unwrap();
    assert_eq!(ids(&found), vec!["linear_1".to_string()]);
}

#[test]
fn fetch_by_id_probes_unprefixed_ids() {
    let mut service = ResourceService::new();
    service.add_provider(mock("alpha", Behaviour::Succeeds));
    let r = service.fetch_resource_by_id("alpha_1").unwrap();
    assert_eq!(r.id, "alpha_1");
    assert_eq!(r.title, "alpha");
}

#[test]
fn fetch_by_id_with_unregistered_prefix_provider() {
    let mut service = ResourceService::new();
    service.add_provider(mock("Linear", Behaviour::Succeeds));
    match service.fetch_resource_by_id("notion_999") {
        Err(DomainError::ProviderError(m)) => assert_eq!(m, "Notion provider not configured"),
        _ => panic!("expected a provider error"),
    }
}

#[test]
fn fetch_by_id_prefix_route_passes_not_found_through() {
    let mut service = ResourceService::new();
    service.add_provider(mock("Linear", Behaviour::NotFound));
    service.add_provider(mock("alpha", Behaviour::Succeeds));
    match service.fetch_resource_by_id("linear_42") {
        Err(DomainError::ResourceNotFound(m)) => assert_eq!(m, "Linear has no such item"),
        _ => panic!("expected not found"),
    }
}

#[test]
fn probe_passes_not_found_and_stops_at_other_error() {
    let mut service = ResourceService::new();
    service.add_provider(mock("one", Behaviour::NotFound));
    service.add_provider(mock("two", Behaviour::Fails));
    service.add_provider(mock("three", Behaviour::Succeeds));
    match service.fetch_resource_by_id("x42") {
        Err(DomainError::ProviderError(m)) => assert_eq!(m, "two is down"),
        _ => panic!("expected the second provider's error"),
    }
}

#[test]
fn probe_passes_not_found_and_stops_at_success() {
    let mut service = ResourceService::new();
    service.add_provider(mock("one", Behaviour::NotFound));
    service.add_provider(mock("two", Behaviour::Succeeds));
    service.add_provider(mock("three", Behaviour::Fails));
    let r = service.fetch_resource_by_id("x42").unwrap();
    assert_eq!(r.title, "two");
}

#[test]
fn probe_with_every_provider_not_found() {
    let mut service = ResourceService::new();
    service.add_provider(mock("one", Behaviour::NotFound));
    service.add_provider(mock("two", Behaviour::NotFound));
    match service.fetch_resource_by_id("x42") {
        Err(e) => {
            assert_eq!(e.to_message(), "Resource not found: Resource not found: x42");
            assert!(matches!(e, DomainError::ResourceNotFound(_)));
        }
        Ok(_) => panic!("expected not found"),
    }
}

#[test]
fn probe_with_no_providers_is_not_found() {
    let service: ResourceService<Mock> = ResourceService::new();
    match service.fetch_resource_by_id("abc") {
        Err(DomainError::ResourceNotFound(m)) => assert_eq!(m, "Resource not found: abc"),
        _ => panic!("expected not found"),
    }
}

#[test]
fn add_provider_twice_keeps_one_entry() {
    let mut service = ResourceService::new();
    service.add_provider(mock("Alpha", Behaviour::Fails));
    service.add_provider(mock("beta", Behaviour::Succeeds));
    service.add_provider(mock("alpha", Behaviour::Succeeds));
    assert_eq!(service.list_providers(), vec!["alpha", "beta"]);
    let found = service.fetch_resources(&all_query()).unwrap();
    assert_eq!(ids(&found), vec!["alpha_1".to_string(), "beta_1".to_string()]);
}

#[test]
fn list_providers_in_registration_order() {
    let mut service = ResourceService::new();
    assert!(service.list_providers().is_empty());
    service.add_provider(mock("Notion", Behaviour::Succeeds));
    service.add_provider(mock("Linear", Behaviour::Succeeds));
    assert_eq!(service.list_providers(), vec!["Notion", "Linear"]);
    assert_eq!(service.position("notion"), Some(0));
    assert_eq!(service.position("linear"), Some(1));
    assert_eq!(service.position("Notion"), None);
}

#[test]
fn search_without_sources_equals_search_of_all() {
    let mut service = ResourceService::new();
    service.add_provider(mock("alpha", Behaviour::Succeeds));
    service.add_provider(mock("beta", Behaviour::Fails));
    service.add_provider(mock("gamma", Behaviour::Succeeds));
    let a = service.search("q", None).unwrap();
    let b = service.search("q", Some(vec![QuerySource::All])).unwrap();
    assert_eq!(ids(&a), ids(&b));
    assert_eq!(ids(&a), vec!["alpha_q".to_string(), "gamma_q".to_string()]);
    assert_eq!(service.search_targets(&None), service.search_targets(&Some(vec![QuerySource::All])));
}

#[test]
fn search_of_sources_in_request_order() {
    let mut service = ResourceService::new();
    service.add_provider(mock("Notion", Behaviour::Succeeds));
    service.add_provider(mock("Linear", Behaviour::Succeeds));
    let found = service
        .search("t", Some(vec![QuerySource::Linear, QuerySource::Notion, QuerySource::Linear]))
        .unwrap();
    assert_eq!(
        ids(&found),
        vec!["linear_t".to_string(), "notion_t".to_string(), "linear_t".to_string()]
    );
    assert_eq!(service.search_targets(&Some(vec![QuerySource::Linear, QuerySource::All])), vec![1, 0, 1]);
}

#[test]
fn search_of_missing_provider_is_empty() {
    let mut service = ResourceService::new();
    service.add_provider(mock("alpha", Behaviour::Succeeds));
    let found = service.search("t", Some(vec![QuerySource::Notion])).unwrap();
    assert!(found.is_empty());
    let service: ResourceService<Mock> = ResourceService::new();
    assert!(service.search("t", None).unwrap().is_empty());
}

#[test]
fn search_with_every_provider_failing_is_empty() {
    let mut service = ResourceService::new();
    service.add_provider(mock("a", Behaviour::Fails));
    service.add_provider(mock("b", Behaviour::NotFound));
    assert!(service.search("t", None).unwrap().is_empty());
}

#[test]
fn repeated_calls_give_the_same_resources() {
    let mut service = ResourceService::new();
    service.add_provider(mock("alpha", Behaviour::Succeeds));
    service.add_provider(mock("beta", Behaviour::Succeeds));
    let a = service.fetch_resources(&all_query()).unwrap();
    let b = service.fetch_resources(&all_query()).unwrap();
    assert_eq!(ids(&a), ids(&b));
    let c = service.search("z", None).unwrap();
    let d = service.search("z", None).unwrap();
    assert_eq!(ids(&c), ids(&d));
}

#[test]
fn targets_of_each_scope() {
    let mut service = ResourceService::new();
    service.add_provider(mock("x", Behaviour::Succeeds));
    service.add_provider(mock("LINEAR", Behaviour::Succeeds));
    assert_eq!(service.targets_of(QuerySource::All), vec![0, 1]);
    assert_eq!(service.targets_of(QuerySource::Linear), vec![1]);
    assert_eq!(service.targets_of(QuerySource::Notion), Vec::<usize>::new());
}

#[test]
fn probe_step_continues_only_on_not_found() {
    assert!(probe_step(Err(DomainError::ResourceNotFound("n".to_string()))).is_none());
    match probe_step(Err(DomainError::InvalidQuery("i".to_string()))) {
        Some(Err(DomainError::InvalidQuery(m))) => assert_eq!(m, "i"),
        _ => panic!("expected the answer itself"),
    }
    match probe_step(Ok(resource("r", "t"))) {
        Some(Ok(r)) => assert_eq!(r.id, "r"),
        _ => panic!("expected the answer itself"),
    }
}

#[test]
fn collect_outcome_appends_successes_only() {
    let mut acc = vec![resource("a", "A")];
    collect_outcome(&mut acc, Ok(vec![resource("b", "B"), resource("c", "C")]));
    collect_outcome(&mut acc, Err(DomainError::ProviderError("down".to_string())));
    collect_outcome(&mut acc, Ok(Vec::new()));
    assert_eq!(ids(&acc), vec!["a".to_string(), "b".to_string(), "c".to_string()]);
}

#[test]
fn ids_route_by_prefix() {
    assert_eq!(route_of_id("notion_1"), QuerySource::Notion);
    assert_eq!(route_of_id("linear_abc"), QuerySource::Linear);
    assert_eq!(route_of_id("alpha_1"), QuerySource::All);
    assert_eq!(route_of_id("notion"), QuerySource::All);
    assert_eq!(route_of_id("Notion_1"), QuerySource::All);
    assert_eq!(route_of_id(""), QuerySource::All);
}

#[test]
fn error_messages() {
    assert_eq!(DomainError::ResourceNotFound("x".to_string()).to_message(), "Resource not found: x");
    assert_eq!(DomainError::InvalidQuery("y".to_string()).to_message(), "Invalid query: y");
    assert_eq!(DomainError::ProviderError("z".to_string()).to_message(), "Provider error: z");
}

#[test]
fn resources_can_be_cloned() {
    let r = resource("c_1", "C");
    let c = r.clone();
    assert_eq!(c.id, "c_1");
    assert_eq!(c.title, "C");
    assert_eq!(c.created_at, r.created_at);
}

#[test]
fn named_provider_is_called_once_and_others_not() {
    let mut service = ResourceService::new();
    service.add_provider(mock("Notion", Behaviour::Succeeds));
    service.add_provider(mock("Linear", Behaviour::Succeeds));
    let q = Query { source: QuerySource::Notion, filters: Vec::new(), limit: None };
    let found = service.fetch_resources(&q).unwrap();
    assert_eq!(ids(&found), vec!["notion_1".to_string()]);
    let r = service.fetch_resource_by_id("notion_7").unwrap();
    assert_eq!(r.title, "Notion");
}
