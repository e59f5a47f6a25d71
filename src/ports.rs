use crate::domain::{DomainError, Query, Resource};
use vstd::prelude::*;

verus! {

/// A source of resources. Each operation reaches a remote service, so what comes back
/// is known only through the relations below, which a provider may define for itself:
/// `fetch_answer(q, r)` holds when `r` is an answer this provider may give to a fetch
/// of `q`, and likewise for lookups, searches and its name. By default nothing is
/// known: every answer is possible.
pub trait ResourceProvider {
    open spec fn fetch_answer(&self, query: Query, r: Result<Vec<Resource>, DomainError>) -> bool {
        true
    }

    open spec fn by_id_answer(&self, id: Seq<char>, r: Result<Resource, DomainError>) -> bool {
        true
    }

    open spec fn search_answer(&self, query: Seq<char>, r: Result<Vec<Resource>, DomainError>) -> bool {
        true
    }

    open spec fn name_answer(&self, name: Seq<char>) -> bool {
        true
    }

    /// Fetches the resources that `query` selects, honouring its filters and limit.
    fn fetch_resources(&self, query: &Query) -> (r: Result<Vec<Resource>, DomainError>)
        ensures
            self.fetch_answer(*query, r),
    ;

    /// Looks up one resource; `ResourceNotFound` when the remote has no such item.
    fn fetch_resource_by_id(&self, id: &str) -> (r: Result<Resource, DomainError>)
        ensures
            self.by_id_answer(id@, r),
    ;

    /// Free-text search within this provider.
    fn search(&self, query: &str) -> (r: Result<Vec<Resource>, DomainError>)
        ensures
            self.search_answer(query@, r),
    ;

    /// A stable name; its lower-case form is the registry key.
    fn provider_name(&self) -> (r: &'static str)
        ensures
            self.name_answer(r@),
    ;
}

/// A store of resources.
pub trait ResourceRepository {
    fn save(&self, resource: &Resource) -> Result<(), DomainError>;

    fn find_by_id(&self, id: &str) -> Result<Option<Resource>, DomainError>;

    fn find_all(&self) -> Result<Vec<Resource>, DomainError>;

    fn delete(&self, id: &str) -> Result<(), DomainError>;
}

} // verus!
