use crate::domain::{not_found_prefix, DomainError, Query, QuerySource, Resource};
use crate::ports::ResourceProvider;
use crate::text::{lower_of, same_text, starts_with, to_lowercase};
use vstd::prelude::*;
use vstd::string::StringExecFns;

verus! {

/// One registered provider: its registry key (the lower-cased name), its name and
/// the provider itself.
pub struct ProviderEntry<P> {
    pub key: String,
    pub name: String,
    pub provider: P,
}

/// The position of `key` among the entries' keys, if it is there.
pub open spec fn key_slot<P>(entries: Seq<ProviderEntry<P>>, key: Seq<char>) -> Option<int> {
    if exists|i: int| 0 <= i < entries.len() && #[trigger] entries[i].key@ == key {
        Some(choose|i: int| 0 <= i < entries.len() && #[trigger] entries[i].key@ == key)
    } else {
        None
    }
}

/// The registry after registering `e`: it takes the place of an entry with the same key,
/// or is appended when there is none.
pub open spec fn registered<P>(entries: Seq<ProviderEntry<P>>, e: ProviderEntry<P>) -> Seq<ProviderEntry<P>> {
    match key_slot(entries, e.key@) {
        Some(i) => entries.update(i, e),
        None => entries.push(e),
    }
}

/// No two entries share a key.
pub open spec fn keys_unique<P>(entries: Seq<ProviderEntry<P>>) -> bool {
    forall|i: int, j: int|
        0 <= i < j < entries.len() ==> #[trigger] entries[i].key@ != #[trigger] entries[j].key@
}

/// The registry key under which a one-provider scope is looked up.
pub open spec fn source_key(s: QuerySource) -> Seq<char> {
    match s {
        QuerySource::Notion => "notion"@,
        QuerySource::Linear => "linear"@,
        QuerySource::All => Seq::empty(),
    }
}

/// The detail of the error for a one-provider scope whose provider is not registered.
pub open spec fn not_configured(s: QuerySource) -> Seq<char> {
    match s {
        QuerySource::Notion => "Notion provider not configured"@,
        QuerySource::Linear => "Linear provider not configured"@,
        QuerySource::All => Seq::empty(),
    }
}

/// The scope an id is routed to: the provider its prefix names, or every provider.
pub open spec fn id_route(id: Seq<char>) -> QuerySource {
    if "notion_"@.is_prefix_of(id) {
        QuerySource::Notion
    } else if "linear_"@.is_prefix_of(id) {
        QuerySource::Linear
    } else {
        QuerySource::All
    }
}

/// What one provider's answer adds to a merged listing: its resources, or nothing
/// when it failed.
pub open spec fn contribution(o: Result<Vec<Resource>, DomainError>) -> Seq<Resource> {
    match o {
        Ok(v) => v@,
        Err(_) => Seq::empty(),
    }
}

/// The concatenation, in order, of the resources of the successful answers.
pub open spec fn merged(outs: Seq<Result<Vec<Resource>, DomainError>>) -> Seq<Resource>
    decreases outs.len(),
{
    if outs.len() == 0 {
        Seq::empty()
    } else {
        merged(outs.drop_last()) + contribution(outs.last())
    }
}

pub open spec fn is_not_found(o: Result<Resource, DomainError>) -> bool {
    o matches Err(DomainError::ResourceNotFound(_))
}

/// The first answer of a probe that is not a not-found, if any.
pub open spec fn first_decisive(outs: Seq<Result<Resource, DomainError>>) -> Option<Result<Resource, DomainError>>
    decreases outs.len(),
{
    if outs.len() == 0 {
        None
    } else if !is_not_found(outs[0]) {
        Some(outs[0])
    } else {
        first_decisive(outs.drop_first())
    }
}

/// The sources a search covers: those requested, or every provider when none are.
pub open spec fn requested(sources: Option<Seq<QuerySource>>) -> Seq<QuerySource> {
    match sources {
        Some(s) => s,
        None => seq![QuerySource::All],
    }
}

pub open spec fn opt_view(sources: Option<Vec<QuerySource>>) -> Option<Seq<QuerySource>> {
    match sources {
        Some(v) => Some(v@),
        None => None,
    }
}

/// Adds the resources of one provider's answer to `acc`; a failed answer adds nothing.
pub fn collect_outcome(acc: &mut Vec<Resource>, outcome: Result<Vec<Resource>, DomainError>)
    ensures
        final(acc)@ == old(acc)@ + contribution(outcome),
{
    match outcome {
        Ok(mut found) => {
            acc.append(&mut found);
        },
        Err(_) => {
            assert(old(acc)@ + contribution(outcome) =~= old(acc)@);
        },
    }
}

/// One step of a probe: a not-found answer lets the probe go on (`None`); any other
/// answer ends it and is its result.
pub fn probe_step(outcome: Result<Resource, DomainError>) -> (r: Option<Result<Resource, DomainError>>)
    ensures
        is_not_found(outcome) ==> r is None,
        !is_not_found(outcome) ==> r == Some(outcome),
{
    match outcome {
        Err(DomainError::ResourceNotFound(_)) => None,
        other => Some(other),
    }
}

/// The error of a probe in which no provider knew `id`.
pub fn exhausted_error(id: &str) -> (e: DomainError)
    ensures
        e matches DomainError::ResourceNotFound(m) && m@ == not_found_prefix() + id@,
{
    DomainError::ResourceNotFound(String::from_str("Resource not found: ").concat(id))
}

/// The error for a one-provider scope whose provider is not registered.
pub fn not_configured_error(source: QuerySource) -> (e: DomainError)
    requires
        source != QuerySource::All,
    ensures
        e matches DomainError::ProviderError(m) && m@ == not_configured(source),
{
    match source {
        QuerySource::Notion => DomainError::ProviderError(String::from_str("Notion provider not configured")),
        _ => DomainError::ProviderError(String::from_str("Linear provider not configured")),
    }
}

/// The scope an id is routed to by its prefix.
pub fn route_of_id(id: &str) -> (r: QuerySource)
    ensures
        r == id_route(id@),
{
    if starts_with(id, "notion_") {
        QuerySource::Notion
    } else if starts_with(id, "linear_") {
        QuerySource::Linear
    } else {
        QuerySource::All
    }
}

/// Registry of providers, keyed by lower-cased provider name, with the fan-out and
/// routing policy over them.
pub struct ResourceService<P> {
    providers: Vec<ProviderEntry<P>>,
}

impl<P> ResourceService<P> {
    pub closed spec fn entries(&self) -> Seq<ProviderEntry<P>> {
        self.providers@
    }

    pub open spec fn names(&self) -> Seq<Seq<char>> {
        self.entries().map_values(|e: ProviderEntry<P>| e.name@)
    }

    /// The registry holds each key once.
    pub open spec fn wf(&self) -> bool {
        keys_unique(self.entries())
    }

    pub open spec fn slot(&self, key: Seq<char>) -> Option<int> {
        key_slot(self.entries(), key)
    }

    /// The positions of the providers that a scope selects, in registry order.
    pub open spec fn targets(&self, s: QuerySource) -> Seq<usize> {
        match s {
            QuerySource::All => Seq::new(self.entries().len(), |i: int| i as usize),
            _ => match self.slot(source_key(s)) {
                Some(i) => seq![i as usize],
                None => Seq::empty(),
            },
        }
    }

    /// The positions of the providers that a search over `sources` asks, in order.
    pub open spec fn search_plan(&self, sources: Seq<QuerySource>) -> Seq<usize>
        decreases sources.len(),
    {
        if sources.len() == 0 {
            Seq::empty()
        } else {
            self.search_plan(sources.drop_last()) + self.targets(sources.last())
        }
    }

    pub fn new() -> (r: Self)
        ensures
            r.wf(),
            r.entries().len() == 0,
    {
        ResourceService { providers: Vec::new() }
    }

    /// The position of the provider registered under `key`.
    pub fn position(&self, key: &str) -> (r: Option<usize>)
        requires
            self.wf(),
        ensures
            match r {
                Some(i) => self.slot(key@) == Some(i as int),
                None => self.slot(key@) is None,
            },
    {
        let mut i: usize = 0;
        while i < self.providers.len()
            invariant
                self.wf(),
                i <= self.entries().len(),
                forall|j: int| 0 <= j < i ==> #[trigger] self.entries()[j].key@ != key@,
            decreases self.entries().len() - i,
        {
            if same_text(self.providers[i].key.as_str(), key) {
                let ghost k = choose|k: int|
                    0 <= k < self.entries().len() && #[trigger] self.entries()[k].key@ == key@;
                assert(self.entries()[i as int].key@ == key@);
                assert(k == i) by {
                    if k < i {
                        assert(self.entries()[k].key@ != self.entries()[i as int].key@);
                    } else if k > i {
                        assert(self.entries()[i as int].key@ != self.entries()[k].key@);
                    }
                }
                return Some(i);
            }
            i = i + 1;
        }
        None
    }

    /// Registers `provider` under the already lower-cased `key`; an entry with the same
    /// key is replaced in place.
    pub fn insert_provider(&mut self, key: String, name: String, provider: P)
        requires
            old(self).wf(),
        ensures
            final(self).wf(),
            final(self).entries() == registered(
                old(self).entries(),
                (ProviderEntry { key, name, provider }),
            ),
    {
        let ghost e = ProviderEntry { key, name, provider };
        match self.position(key.as_str()) {
            Some(i) => {
                self.providers[i] = ProviderEntry { key, name, provider };
                assert forall|a: int, b: int|
                    0 <= a < b < self.entries().len() implies #[trigger] self.entries()[a].key@
                        != #[trigger] self.entries()[b].key@ by {
                    assert(old(self).entries()[a].key@ == self.entries()[a].key@);
                    assert(old(self).entries()[b].key@ == self.entries()[b].key@);
                }
            },
            None => {
                self.providers.push(ProviderEntry { key, name, provider });
                assert forall|a: int, b: int|
                    0 <= a < b < self.entries().len() implies #[trigger] self.entries()[a].key@
                        != #[trigger] self.entries()[b].key@ by {
                    if b == old(self).entries().len() {
                        assert(!(0 <= a < old(self).entries().len() && old(self).entries()[a].key@ == e.key@));
                    } else {
                        assert(old(self).entries()[a].key@ != old(self).entries()[b].key@);
                    }
                }
            },
        }
    }

    /// The names of the registered providers, in registry order.
    pub fn list_providers(&self) -> (r: Vec<&str>)
        ensures
            r@.len() == self.entries().len(),
            forall|i: int| 0 <= i < r@.len() ==> #[trigger] r@[i]@ == self.names()[i],
    {
        let mut r: Vec<&str> = Vec::new();
        let mut i: usize = 0;
        while i < self.providers.len()
            invariant
                i <= self.entries().len(),
                r@.len() == i,
                forall|j: int| 0 <= j < i ==> #[trigger] r@[j]@ == self.names()[j],
            decreases self.entries().len() - i,
        {
            r.push(self.providers[i].name.as_str());
            i = i + 1;
        }
        r
    }

    /// The positions of the providers that `source` selects.
    pub fn targets_of(&self, source: QuerySource) -> (r: Vec<usize>)
        requires
            self.wf(),
        ensures
            r@ == self.targets(source),
            forall|k: int| 0 <= k < r@.len() ==> #[trigger] r@[k] < self.entries().len(),
    {
        match source {
            QuerySource::All => {
                let mut r: Vec<usize> = Vec::new();
                let mut i: usize = 0;
                while i < self.providers.len()
                    invariant
                        i <= self.entries().len(),
                        r@ == Seq::new(i as nat, |k: int| k as usize),
                    decreases self.entries().len() - i,
                {
                    r.push(i);
                    i = i + 1;
                    assert(r@ =~= Seq::new(i as nat, |k: int| k as usize));
                }
                r
            },
            QuerySource::Notion => match self.position("notion") {
                Some(i) => vec![i],
                None => Vec::new(),
            },
            QuerySource::Linear => match self.position("linear") {
                Some(i) => vec![i],
                None => Vec::new(),
            },
        }
    }

    /// The positions of the providers that a search over `sources` asks, in order;
    /// no sources means every provider.
    pub fn search_targets(&self, sources: &Option<Vec<QuerySource>>) -> (r: Vec<usize>)
        requires
            self.wf(),
        ensures
            r@ == self.search_plan(requested(opt_view(*sources))),
            forall|k: int| 0 <= k < r@.len() ==> #[trigger] r@[k] < self.entries().len(),
    {
        let all = vec![QuerySource::All];
        let list: &Vec<QuerySource> = match sources {
            Some(v) => v,
            None => &all,
        };
        let ghost req = requested(opt_view(*sources));
        assert(list@ == req);
        let mut r: Vec<usize> = Vec::new();
        let mut i: usize = 0;
        while i < list.len()
            invariant
                self.wf(),
                list@ == req,
                i <= req.len(),
                r@ == self.search_plan(req.subrange(0, i as int)),
                forall|k: int| 0 <= k < r@.len() ==> #[trigger] r@[k] < self.entries().len(),
            decreases req.len() - i,
        {
            let mut t = self.targets_of(list[i]);
            proof {
                let next = req.subrange(0, i + 1);
                assert(next.drop_last() =~= req.subrange(0, i as int));
                assert(next.last() == req[i as int]);
            }
            let ghost r0 = r@;
            r.append(&mut t);
            assert(forall|k: int| 0 <= k < r0.len() ==> #[trigger] r@[k] == r0[k]);
            i = i + 1;
        }
        assert(req.subrange(0, req.len() as int) =~= req);
        r
    }
}

impl<P: ResourceProvider> ResourceService<P> {
    /// `outs` holds, position by position, an answer that each registered provider may
    /// give to a fetch of `query`.
    pub open spec fn fetch_answers(&self, query: Query, outs: Seq<Result<Vec<Resource>, DomainError>>) -> bool {
        &&& outs.len() == self.entries().len()
        &&& forall|i: int|
            0 <= i < outs.len() ==> self.entries()[i].provider.fetch_answer(query, #[trigger] outs[i])
    }

    /// What a fetch of `query` returns: for the scope of all providers, the successful
    /// answers of every provider concatenated in registry order; for a one-provider
    /// scope, that provider's own answer, or the not-configured error when it is absent.
    pub open spec fn fetch_result(&self, query: Query, r: Result<Vec<Resource>, DomainError>) -> bool {
        match query.source {
            QuerySource::All => r matches Ok(v) && exists|outs: Seq<Result<Vec<Resource>, DomainError>>|
                #[trigger] self.fetch_answers(query, outs) && v@ == merged(outs),
            s => match self.slot(source_key(s)) {
                Some(i) => self.entries()[i].provider.fetch_answer(query, r),
                None => r matches Err(DomainError::ProviderError(m)) && m@ == not_configured(s),
            },
        }
    }

    /// `outs` are the answers of a probe for `id`: the providers asked in registry order,
    /// each answer one that provider may give, going on past not-found answers only.
    pub open spec fn probe_answers(&self, id: Seq<char>, outs: Seq<Result<Resource, DomainError>>) -> bool {
        &&& outs.len() <= self.entries().len()
        &&& forall|j: int|
            0 <= j < outs.len() ==> self.entries()[j].provider.by_id_answer(id, #[trigger] outs[j])
        &&& forall|j: int| 0 <= j < outs.len() - 1 ==> is_not_found(#[trigger] outs[j])
        &&& outs.len() < self.entries().len() ==> outs.len() > 0 && !is_not_found(outs.last())
    }

    /// What a lookup of `id` returns: the answer of the provider that its prefix names (or
    /// the not-configured error when that one is absent); for any other id, the first
    /// answer of the probe that is not a not-found, or the not-found error.
    pub open spec fn by_id_result(&self, id: Seq<char>, r: Result<Resource, DomainError>) -> bool {
        match id_route(id) {
            QuerySource::All => exists|outs: Seq<Result<Resource, DomainError>>|
                #[trigger] self.probe_answers(id, outs) && probe_result(id, outs, r),
            s => match self.slot(source_key(s)) {
                Some(i) => self.entries()[i].provider.by_id_answer(id, r),
                None => r matches Err(DomainError::ProviderError(m)) && m@ == not_configured(s),
            },
        }
    }

    /// `outs` holds, position by position, an answer that each provider of `plan` may
    /// give to a search for `query`.
    pub open spec fn search_answers(&self, query: Seq<char>, plan: Seq<usize>, outs: Seq<Result<Vec<Resource>, DomainError>>) -> bool {
        &&& outs.len() == plan.len()
        &&& forall|k: int|
            0 <= k < outs.len() ==> self.entries()[plan[k] as int].provider.search_answer(
                query,
                #[trigger] outs[k],
            )
    }

    /// What a search returns: always a listing, the successful answers of the planned
    /// providers concatenated in plan order.
    pub open spec fn search_result(&self, query: Seq<char>, sources: Option<Seq<QuerySource>>, r: Result<Vec<Resource>, DomainError>) -> bool {
        r matches Ok(v) && exists|outs: Seq<Result<Vec<Resource>, DomainError>>|
            #[trigger] self.search_answers(query, self.search_plan(requested(sources)), outs) && v@
                == merged(outs)
    }

    /// Registers `provider` under the lower-cased form of its name; a provider already
    /// registered under that key is replaced.
    pub fn add_provider(&mut self, provider: P)
        requires
            old(self).wf(),
        ensures
            final(self).wf(),
            exists|e: ProviderEntry<P>|
                e.provider == provider && provider.name_answer(e.name@) && e.key@ == lower_of(e.name@)
                    && final(self).entries() == registered(old(self).entries(), e),
    {
        let name = provider.provider_name();
        let key = to_lowercase(name);
        let full = String::from_str(name);
        let ghost e = ProviderEntry { key, name: full, provider };
        self.insert_provider(key, full, provider);
        assert(e.provider == provider && provider.name_answer(e.name@));
    }

    /// Fetches the resources that `query` asks for. A one-provider scope answers with
    /// that provider's own result, or fails when it is not registered; the scope of all
    /// providers concatenates the successful answers and passes over failures.
    pub fn fetch_resources(&self, query: &Query) -> (r: Result<Vec<Resource>, DomainError>)
        requires
            self.wf(),
        ensures
            self.fetch_result(*query, r),
            query.source != QuerySource::All && self.slot(source_key(query.source)) is None ==> (
            r matches Err(DomainError::ProviderError(m)) && m@ == not_configured(query.source)),
            query.source == QuerySource::All && self.entries().len() == 0 ==> (r matches Ok(v)
                && v@.len() == 0),
    {
        match query.source {
            QuerySource::All => {
                let mut acc: Vec<Resource> = Vec::new();
                let ghost mut outs: Seq<Result<Vec<Resource>, DomainError>> = Seq::empty();
                let mut i: usize = 0;
                while i < self.providers.len()
                    invariant
                        i <= self.entries().len(),
                        outs.len() == i,
                        acc@ == merged(outs),
                        forall|j: int|
                            0 <= j < i ==> self.entries()[j].provider.fetch_answer(
                                *query,
                                #[trigger] outs[j],
                            ),
                    decreases self.entries().len() - i,
                {
                    let outcome = self.providers[i].provider.fetch_resources(query);
                    proof {
                        let before = outs;
                        outs = outs.push(outcome);
                        assert(outs.drop_last() =~= before);
                        assert(forall|j: int| 0 <= j < i ==> #[trigger] outs[j] == before[j]);
                    }
                    collect_outcome(&mut acc, outcome);
                    i = i + 1;
                }
                assert(self.fetch_answers(*query, outs));
                Ok(acc)
            },
            source => {
                let key = if source == QuerySource::Notion { "notion" } else { "linear" };
                match self.position(key) {
                    Some(i) => self.providers[i].provider.fetch_resources(query),
                    None => Err(not_configured_error(source)),
                }
            },
        }
    }

    /// Looks up one resource. An id whose prefix names a provider goes to that provider
    /// alone, whose answer is returned as it is. Any other id is offered to each provider
    /// in registry order: a not-found answer moves on to the next one, and the first
    /// other answer is the result.
    pub fn fetch_resource_by_id(&self, id: &str) -> (r: Result<Resource, DomainError>)
        requires
            self.wf(),
        ensures
            self.by_id_result(id@, r),
            id_route(id@) != QuerySource::All && self.slot(source_key(id_route(id@))) is None
                ==> (r matches Err(DomainError::ProviderError(m)) && m@ == not_configured(
                id_route(id@),
            )),
    {
        let route = route_of_id(id);
        match route {
            QuerySource::All => {
                let ghost mut outs: Seq<Result<Resource, DomainError>> = Seq::empty();
                let mut i: usize = 0;
                while i < self.providers.len()
                    invariant
                        i <= self.entries().len(),
                        outs.len() == i,
                        forall|j: int| 0 <= j < outs.len() ==> is_not_found(#[trigger] outs[j]),
                        forall|j: int|
                            0 <= j < outs.len() ==> self.entries()[j].provider.by_id_answer(
                                id@,
                                #[trigger] outs[j],
                            ),
                        first_decisive(outs) is None,
                        id_route(id@) == QuerySource::All,
                    decreases self.entries().len() - i,
                {
                    let outcome = self.providers[i].provider.fetch_resource_by_id(id);
                    let ghost before = outs;
                    proof {
                        outs = outs.push(outcome);
                        lemma_first_decisive_push(before, outcome);
                        assert(forall|j: int| 0 <= j < i ==> #[trigger] outs[j] == before[j]);
                    }
                    match probe_step(outcome) {
                        Some(done) => {
                            proof {
                                assert(first_decisive(outs) == Some(done));
                                assert(self.probe_answers(id@, outs));
                            }
                            return done;
                        },
                        None => {},
                    }
                    i = i + 1;
                }
                let e = exhausted_error(id);
                proof {
                    assert(self.probe_answers(id@, outs));
                }
                Err(e)
            },
            source => {
                let key = if source == QuerySource::Notion { "notion" } else { "linear" };
                match self.position(key) {
                    Some(i) => self.providers[i].provider.fetch_resource_by_id(id),
                    None => Err(not_configured_error(source)),
                }
            },
        }
    }

    /// Searches each requested source (every provider when none is requested) and
    /// concatenates the successful answers; a failing provider is passed over, so the
    /// search itself never fails.
    pub fn search(&self, query: &str, sources: Option<Vec<QuerySource>>) -> (r: Result<Vec<Resource>, DomainError>)
        requires
            self.wf(),
        ensures
            self.search_result(query@, opt_view(sources), r),
    {
        let plan = self.search_targets(&sources);
        let mut acc: Vec<Resource> = Vec::new();
        let ghost mut outs: Seq<Result<Vec<Resource>, DomainError>> = Seq::empty();
        let mut i: usize = 0;
        while i < plan.len()
            invariant
                forall|k: int| 0 <= k < plan@.len() ==> #[trigger] plan@[k] < self.entries().len(),
                i <= plan@.len(),
                outs.len() == i,
                acc@ == merged(outs),
                forall|k: int|
                    0 <= k < i ==> self.entries()[plan@[k] as int].provider.search_answer(
                        query@,
                        #[trigger] outs[k],
                    ),
            decreases plan@.len() - i,
        {
            let outcome = self.providers[plan[i]].provider.search(query);
            proof {
                let before = outs;
                outs = outs.push(outcome);
                assert(outs.drop_last() =~= before);
                assert(forall|k: int| 0 <= k < i ==> #[trigger] outs[k] == before[k]);
            }
            collect_outcome(&mut acc, outcome);
            i = i + 1;
        }
        assert(self.search_answers(query@, plan@, outs));
        Ok(acc)
    }
}

/// The result of a probe over `outs`: its first answer that is not a not-found, or the
/// not-found error for `id` when there is none.
pub open spec fn probe_result(id: Seq<char>, outs: Seq<Result<Resource, DomainError>>, r: Result<Resource, DomainError>) -> bool {
    match first_decisive(outs) {
        Some(o) => r == o,
        None => r matches Err(DomainError::ResourceNotFound(m)) && m@ == not_found_prefix() + id,
    }
}

/// Appending an answer to a probe in which none was decisive yet: the first decisive
/// answer is the new one, when it is decisive.
proof fn lemma_first_decisive_push(outs: Seq<Result<Resource, DomainError>>, o: Result<Resource, DomainError>)
    requires
        first_decisive(outs) is None,
    ensures
        first_decisive(outs.push(o)) == if is_not_found(o) {
            None
        } else {
            Some(o)
        },
    decreases outs.len(),
{
    let longer = outs.push(o);
    if outs.len() == 0 {
        assert(longer[0] == o);
        assert(longer.drop_first() =~= Seq::<Result<Resource, DomainError>>::empty());
        assert(first_decisive(longer.drop_first()) is None);
    } else {
        assert(is_not_found(outs[0]));
        assert(first_decisive(outs.drop_first()) is None);
        assert(longer[0] == outs[0]);
        assert(longer.drop_first() =~= outs.drop_first().push(o));
        lemma_first_decisive_push(outs.drop_first(), o);
        assert(first_decisive(longer) == first_decisive(longer.drop_first()));
    }
}


/// A probe goes past every not-found answer and ends at the first other one: when the
/// answers before position `k` are all not-found and the one at `k` is not, the probe's
/// result is the answer at `k`, whatever later providers would have said.
pub proof fn lemma_probe_stops_at_first_other(outs: Seq<Result<Resource, DomainError>>, k: int)
    requires
        0 <= k < outs.len(),
        forall|j: int| 0 <= j < k ==> is_not_found(#[trigger] outs[j]),
        !is_not_found(outs[k]),
    ensures
        first_decisive(outs) == Some(outs[k]),
        first_decisive(outs) == first_decisive(outs.subrange(0, k + 1)),
    decreases k,
{
    if k > 0 {
        let rest = outs.drop_first();
        assert forall|j: int| 0 <= j < k - 1 implies is_not_found(#[trigger] rest[j]) by {
            assert(rest[j] == outs[j + 1]);
        }
        lemma_probe_stops_at_first_other(rest, k - 1);
        assert(outs.subrange(0, k + 1).drop_first() =~= rest.subrange(0, k));
        assert(is_not_found(outs[0]));
    }
}

/// A probe in which every provider answered not-found has no result of its own: the
/// caller gets the not-found error.
pub proof fn lemma_probe_all_not_found(outs: Seq<Result<Resource, DomainError>>)
    requires
        forall|j: int| 0 <= j < outs.len() ==> is_not_found(#[trigger] outs[j]),
    ensures
        first_decisive(outs) is None,
    decreases outs.len(),
{
    if outs.len() > 0 {
        let rest = outs.drop_first();
        assert forall|j: int| 0 <= j < rest.len() implies is_not_found(#[trigger] rest[j]) by {
            assert(rest[j] == outs[j + 1]);
        }
        lemma_probe_all_not_found(rest);
    }
}

/// A search with no requested sources asks the same providers, in the same order, as a
/// search that requests every provider.
pub proof fn lemma_search_default_is_all<P>(service: ResourceService<P>)
    ensures
        service.search_plan(requested(None)) == service.search_plan(requested(Some(seq![QuerySource::All]))),
        service.search_plan(requested(None)) == service.targets(QuerySource::All),
{
    let s = seq![QuerySource::All];
    assert(s.drop_last() =~= Seq::<QuerySource>::empty());
    assert(s.last() == QuerySource::All);
    assert(service.search_plan(s.drop_last()) =~= Seq::<usize>::empty());
    assert(service.search_plan(s) =~= service.targets(QuerySource::All));
}

/// Registering keeps the keys unique, and the registered entry is then the one entry
/// under its key.
pub proof fn lemma_registered_holds_entry<P>(entries: Seq<ProviderEntry<P>>, e: ProviderEntry<P>)
    requires
        keys_unique(entries),
    ensures
        keys_unique(registered(entries, e)),
        key_slot(registered(entries, e), e.key@) matches Some(i) && registered(entries, e)[i] == e,
        forall|i: int|
            0 <= i < registered(entries, e).len() && #[trigger] registered(entries, e)[i].key@ == e.key@
                ==> registered(entries, e)[i] == e,
{
    let r = registered(entries, e);
    match key_slot(entries, e.key@) {
        Some(k) => {
            assert(r == entries.update(k, e));
            assert forall|a: int, b: int| 0 <= a < b < r.len() implies #[trigger] r[a].key@
                != #[trigger] r[b].key@ by {
                assert(entries[a].key@ != entries[b].key@);
            }
            assert forall|i: int| 0 <= i < r.len() && #[trigger] r[i].key@ == e.key@ implies r[i] == e by {
                if i != k {
                    if i < k {
                        assert(entries[i].key@ != entries[k].key@);
                    } else {
                        assert(entries[k].key@ != entries[i].key@);
                    }
                }
            }
            assert(r[k] == e);
        },
        None => {
            let n = entries.len() as int;
            assert(r == entries.push(e));
            assert forall|a: int, b: int| 0 <= a < b < r.len() implies #[trigger] r[a].key@
                != #[trigger] r[b].key@ by {
                if b < n {
                    assert(entries[a].key@ != entries[b].key@);
                } else {
                    assert(!(0 <= a < n && entries[a].key@ == e.key@));
                }
            }
            assert forall|i: int| 0 <= i < r.len() && #[trigger] r[i].key@ == e.key@ implies r[i] == e by {
                if i < n {
                    assert(!(0 <= i < n && entries[i].key@ == e.key@));
                }
            }
            assert(r[n] == e);
        },
    }
    let i = choose|i: int| 0 <= i < r.len() && #[trigger] r[i].key@ == e.key@;
    assert(r[i] == e);
}

/// Registering a second provider under a key that is already taken replaces the
/// provider there: the registry does not grow, and the newer provider is the one entry
/// under that key.
pub proof fn lemma_second_registration_replaces<P>(
    entries: Seq<ProviderEntry<P>>,
    first: ProviderEntry<P>,
    second: ProviderEntry<P>,
)
    requires
        keys_unique(entries),
        first.key@ == second.key@,
    ensures
        registered(registered(entries, first), second).len() == registered(entries, first).len(),
        forall|i: int|
            0 <= i < registered(registered(entries, first), second).len()
                && #[trigger] registered(registered(entries, first), second)[i].key@ == second.key@
                ==> registered(registered(entries, first), second)[i] == second,
        keys_unique(registered(registered(entries, first), second)),
{
    lemma_registered_holds_entry(entries, first);
    let r1 = registered(entries, first);
    lemma_registered_holds_entry(r1, second);
    assert(key_slot(r1, second.key@) is Some);
}

/// Two errors of the same kind with the same detail.
pub open spec fn same_error(a: DomainError, b: DomainError) -> bool {
    match (a, b) {
        (DomainError::ResourceNotFound(x), DomainError::ResourceNotFound(y)) => x@ == y@,
        (DomainError::InvalidQuery(x), DomainError::InvalidQuery(y)) => x@ == y@,
        (DomainError::ProviderError(x), DomainError::ProviderError(y)) => x@ == y@,
        _ => false,
    }
}

/// Two listings, or two errors, that agree.
pub open spec fn same_listing(a: Result<Vec<Resource>, DomainError>, b: Result<Vec<Resource>, DomainError>) -> bool {
    match (a, b) {
        (Ok(x), Ok(y)) => x@ == y@,
        (Err(x), Err(y)) => same_error(x, y),
        _ => false,
    }
}

/// Two lookup outcomes that agree.
pub open spec fn same_lookup(a: Result<Resource, DomainError>, b: Result<Resource, DomainError>) -> bool {
    match (a, b) {
        (Ok(x), Ok(y)) => x == y,
        (Err(x), Err(y)) => same_error(x, y),
        _ => false,
    }
}

/// A provider whose remote state does not change: any two of its answers to a fetch of
/// `query` are the same.
pub open spec fn fetch_fixed<P: ResourceProvider>(p: P, query: Query) -> bool {
    forall|a: Result<Vec<Resource>, DomainError>, b: Result<Vec<Resource>, DomainError>|
        p.fetch_answer(query, a) && p.fetch_answer(query, b) ==> a == b
}

pub open spec fn by_id_fixed<P: ResourceProvider>(p: P, id: Seq<char>) -> bool {
    forall|a: Result<Resource, DomainError>, b: Result<Resource, DomainError>|
        p.by_id_answer(id, a) && p.by_id_answer(id, b) ==> a == b
}

pub open spec fn search_fixed<P: ResourceProvider>(p: P, query: Seq<char>) -> bool {
    forall|a: Result<Vec<Resource>, DomainError>, b: Result<Vec<Resource>, DomainError>|
        p.search_answer(query, a) && p.search_answer(query, b) ==> a == b
}

/// Fetching twice from providers whose remote state is unchanged gives the same outcome.
pub proof fn lemma_fetch_repeatable<P: ResourceProvider>(
    service: ResourceService<P>,
    query: Query,
    r1: Result<Vec<Resource>, DomainError>,
    r2: Result<Vec<Resource>, DomainError>,
)
    requires
        forall|i: int|
            0 <= i < service.entries().len() ==> fetch_fixed(#[trigger] service.entries()[i].provider, query),
        service.fetch_result(query, r1),
        service.fetch_result(query, r2),
    ensures
        same_listing(r1, r2),
{
    if query.source == QuerySource::All {
        let o1 = choose|outs: Seq<Result<Vec<Resource>, DomainError>>|
            #[trigger] service.fetch_answers(query, outs) && r1->Ok_0@ == merged(outs);
        let o2 = choose|outs: Seq<Result<Vec<Resource>, DomainError>>|
            #[trigger] service.fetch_answers(query, outs) && r2->Ok_0@ == merged(outs);
        assert forall|i: int| 0 <= i < o1.len() implies o1[i] == o2[i] by {
            assert(fetch_fixed(service.entries()[i].provider, query));
            assert(service.entries()[i].provider.fetch_answer(query, o1[i]));
            assert(service.entries()[i].provider.fetch_answer(query, o2[i]));
        }
        assert(o1 =~= o2);
    } else {
        match service.slot(source_key(query.source)) {
            Some(i) => {
                assert(fetch_fixed(service.entries()[i].provider, query));
                assert(r1 == r2);
            },
            None => {},
        }
    }
}

/// Two probes over providers whose remote state is unchanged stop at the same provider.
proof fn lemma_probes_agree<P: ResourceProvider>(
    service: ResourceService<P>,
    id: Seq<char>,
    o1: Seq<Result<Resource, DomainError>>,
    o2: Seq<Result<Resource, DomainError>>,
)
    requires
        forall|i: int|
            0 <= i < service.entries().len() ==> by_id_fixed(#[trigger] service.entries()[i].provider, id),
        service.probe_answers(id, o1),
        service.probe_answers(id, o2),
        o1.len() <= o2.len(),
    ensures
        o1 == o2,
{
    assert forall|j: int| 0 <= j < o1.len() implies o1[j] == o2[j] by {
        assert(by_id_fixed(service.entries()[j].provider, id));
        assert(service.entries()[j].provider.by_id_answer(id, o1[j]));
        assert(service.entries()[j].provider.by_id_answer(id, o2[j]));
    }
    if o1.len() < o2.len() {
        let k = o1.len() - 1;
        assert(!is_not_found(o1[k]));
        assert(is_not_found(o2[k]));
    }
    assert(o1 =~= o2);
}

/// Looking an id up twice from providers whose remote state is unchanged gives the same
/// outcome.
pub proof fn lemma_lookup_repeatable<P: ResourceProvider>(
    service: ResourceService<P>,
    id: Seq<char>,
    r1: Result<Resource, DomainError>,
    r2: Result<Resource, DomainError>,
)
    requires
        forall|i: int|
            0 <= i < service.entries().len() ==> by_id_fixed(#[trigger] service.entries()[i].provider, id),
        service.by_id_result(id, r1),
        service.by_id_result(id, r2),
    ensures
        same_lookup(r1, r2),
{
    if id_route(id) == QuerySource::All {
        let o1 = choose|outs: Seq<Result<Resource, DomainError>>|
            #[trigger] service.probe_answers(id, outs) && probe_result(id, outs, r1);
        let o2 = choose|outs: Seq<Result<Resource, DomainError>>|
            #[trigger] service.probe_answers(id, outs) && probe_result(id, outs, r2);
        if o1.len() <= o2.len() {
            lemma_probes_agree(service, id, o1, o2);
        } else {
            lemma_probes_agree(service, id, o2, o1);
        }
    } else {
        match service.slot(source_key(id_route(id))) {
            Some(i) => {
                assert(by_id_fixed(service.entries()[i].provider, id));
                assert(r1 == r2);
            },
            None => {},
        }
    }
}

/// Two searches that ask the same providers in the same order, of providers whose remote
/// state is unchanged, give the same listing.
pub proof fn lemma_search_repeatable<P: ResourceProvider>(
    service: ResourceService<P>,
    query: Seq<char>,
    s1: Option<Seq<QuerySource>>,
    s2: Option<Seq<QuerySource>>,
    r1: Result<Vec<Resource>, DomainError>,
    r2: Result<Vec<Resource>, DomainError>,
)
    requires
        service.search_plan(requested(s1)) == service.search_plan(requested(s2)),
        forall|k: int|
            0 <= k < service.search_plan(requested(s1)).len() ==> search_fixed(
                service.entries()[#[trigger] service.search_plan(requested(s1))[k] as int].provider,
                query,
            ),
        service.search_result(query, s1, r1),
        service.search_result(query, s2, r2),
    ensures
        same_listing(r1, r2),
{
    let plan = service.search_plan(requested(s1));
    let o1 = choose|outs: Seq<Result<Vec<Resource>, DomainError>>|
        #[trigger] service.search_answers(query, plan, outs) && r1->Ok_0@ == merged(outs);
    let o2 = choose|outs: Seq<Result<Vec<Resource>, DomainError>>|
        #[trigger] service.search_answers(query, plan, outs) && r2->Ok_0@ == merged(outs);
    assert forall|k: int| 0 <= k < o1.len() implies o1[k] == o2[k] by {
        let p = service.entries()[plan[k] as int].provider;
        assert(search_fixed(p, query));
        assert(p.search_answer(query, o1[k]));
        assert(p.search_answer(query, o2[k]));
    }
    assert(o1 =~= o2);
}

/// A search with no requested sources gives the same listing as a search of every
/// provider, when the providers' remote state is unchanged.
pub proof fn lemma_search_default_same_results<P: ResourceProvider>(
    service: ResourceService<P>,
    query: Seq<char>,
    r1: Result<Vec<Resource>, DomainError>,
    r2: Result<Vec<Resource>, DomainError>,
)
    requires
        forall|k: int|
            0 <= k < service.search_plan(requested(None)).len() ==> search_fixed(
                service.entries()[#[trigger] service.search_plan(requested(None))[k] as int].provider,
                query,
            ),
        service.search_result(query, None, r1),
        service.search_result(query, Some(seq![QuerySource::All]), r2),
    ensures
        same_listing(r1, r2),
{
    lemma_search_default_is_all(service);
    lemma_search_repeatable(service, query, None, Some(seq![QuerySource::All]), r1, r2);
}

} // verus!
