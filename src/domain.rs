use std::collections::HashMap;
use vstd::prelude::*;
use vstd::string::StringExecFns;

verus! {

/// `serde_json::Value`: the metadata values of a resource, carried through unread.
#[verifier::external_type_specification]
#[verifier::external_body]
pub struct ExJsonValue(serde_json::Value);

/// An instant in UTC: whole seconds since the Unix epoch and the nanoseconds past them.
#[derive(Clone, Copy, Debug, PartialEq, Eq, Structural)]
pub struct Timestamp {
    pub seconds: i64,
    pub nanos: u32,
}

/// A unit of content fetched from one provider, in a provider-neutral shape.
#[derive(Debug, Clone)]
pub struct Resource {
    pub id: String,
    pub source: ResourceSource,
    pub title: String,
    pub content: String,
    pub metadata: HashMap<String, serde_json::Value>,
    pub created_at: Timestamp,
    pub updated_at: Timestamp,
}

/// Which provider produced a resource, with that provider's own identifiers.
#[derive(Debug, Clone)]
pub enum ResourceSource {
    Notion { page_id: String, database_id: Option<String> },
    Linear { issue_id: String, project_id: Option<String> },
    Custom(String),
}

/// A request descriptor: which providers to ask, provider-interpreted filters and an
/// optional cap on the number of results.
#[derive(Debug, Clone)]
pub struct Query {
    pub source: QuerySource,
    /// Key/value filters, read by the provider that gets the query.
    pub filters: Vec<(String, String)>,
    pub limit: Option<usize>,
}

impl Query {
    /// The filters form a map: no key occurs twice.
    pub open spec fn wf(&self) -> bool {
        forall|i: int, j: int|
            0 <= i < j < self.filters@.len() ==> #[trigger] self.filters@[i].0@
                != #[trigger] self.filters@[j].0@
    }
}

/// The provider scope of a request: one named provider or every registered one.
#[derive(Clone, Copy, Debug, PartialEq, Eq, Structural)]
pub enum QuerySource {
    Notion,
    Linear,
    All,
}

/// The errors of this domain, each carrying a human-readable detail.
#[derive(Debug, Clone)]
pub enum DomainError {
    ResourceNotFound(String),
    InvalidQuery(String),
    ProviderError(String),
}

pub open spec fn not_found_prefix() -> Seq<char> {
    "Resource not found: "@
}

pub open spec fn invalid_query_prefix() -> Seq<char> {
    "Invalid query: "@
}

pub open spec fn provider_error_prefix() -> Seq<char> {
    "Provider error: "@
}

impl DomainError {
    pub open spec fn detail(&self) -> Seq<char> {
        match self {
            DomainError::ResourceNotFound(m) => m@,
            DomainError::InvalidQuery(m) => m@,
            DomainError::ProviderError(m) => m@,
        }
    }

    /// The full text shown to a user: the kind of error followed by its detail.
    pub open spec fn message_view(&self) -> Seq<char> {
        match self {
            DomainError::ResourceNotFound(m) => not_found_prefix() + m@,
            DomainError::InvalidQuery(m) => invalid_query_prefix() + m@,
            DomainError::ProviderError(m) => provider_error_prefix() + m@,
        }
    }

    pub fn to_message(&self) -> (r: String)
        ensures
            r@ == self.message_view(),
    {
        let (prefix, detail) = match self {
            DomainError::ResourceNotFound(m) => ("Resource not found: ", m),
            DomainError::InvalidQuery(m) => ("Invalid query: ", m),
            DomainError::ProviderError(m) => ("Provider error: ", m),
        };
        let r = String::from_str(prefix).concat(detail.as_str());
        r
    }
}

} // verus!
