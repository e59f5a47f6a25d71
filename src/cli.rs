use crate::domain::{Query, QuerySource};
use crate::text::{lower_of, same_text, split_at_first, to_lowercase};
use vstd::prelude::*;

verus! {

/// The command line of the program: one command and a verbosity switch.
pub struct Cli {
    pub command: Commands,
    pub verbose: bool,
}

/// The commands the program offers.
#[allow(inconsistent_fields)]
pub enum Commands {
    /// Fetch resources from the configured providers.
    Fetch { source: String, limit: Option<usize>, filter: Vec<String> },
    /// Get one resource by id.
    Get { id: String },
    /// Search the resources of some providers.
    Search { query: String, source: Vec<String>, limit: Option<usize> },
    /// List the configured providers.
    Providers,
    /// Show or test the credentials.
    Config { action: ConfigAction },
}

/// What the configuration command does.
#[allow(inconsistent_fields)]
pub enum ConfigAction {
    SetKey { provider: String, key: String },
    List,
    Test { provider: Option<String> },
}

/// The scope that a lower-cased source word names: "notion" and "linear" name one
/// provider, any other word means all of them.
pub open spec fn source_named(lower: Seq<char>) -> QuerySource {
    if lower == "notion"@ {
        QuerySource::Notion
    } else if lower == "linear"@ {
        QuerySource::Linear
    } else {
        QuerySource::All
    }
}

/// The scope named by an already lower-cased source word.
pub fn source_from_lowercase(lower: &str) -> (r: QuerySource)
    ensures
        r == source_named(lower@),
{
    if same_text(lower, "notion") {
        QuerySource::Notion
    } else if same_text(lower, "linear") {
        QuerySource::Linear
    } else {
        QuerySource::All
    }
}

/// The scope named by a source word, in any case.
pub fn parse_source(s: &str) -> (r: QuerySource)
    ensures
        r == source_named(lower_of(s@)),
{
    let lower = to_lowercase(s);
    source_from_lowercase(lower.as_str())
}

/// The scopes named by source words, one for each word, in order.
pub fn parse_sources(sources: Vec<String>) -> (r: Vec<QuerySource>)
    ensures
        r@.len() == sources@.len(),
        forall|i: int| 0 <= i < r@.len() ==> #[trigger] r@[i] == source_named(lower_of(sources@[i]@)),
{
    let mut r: Vec<QuerySource> = Vec::new();
    let mut i: usize = 0;
    while i < sources.len()
        invariant
            i <= sources@.len(),
            r@.len() == i,
            forall|j: int| 0 <= j < i ==> #[trigger] r@[j] == source_named(lower_of(sources@[j]@)),
        decreases sources@.len() - i,
    {
        r.push(parse_source(sources[i].as_str()));
        i = i + 1;
    }
    r
}

/// The position of the first `=` in a filter that has one.
pub open spec fn eq_pos(s: Seq<char>) -> int {
    choose|p: int| 0 <= p < s.len() && s[p] == '=' && forall|q: int| 0 <= q < p ==> s[q] != '='
}

/// The filters that `key=value` words give: the text before the first `=` maps to the
/// text after it; a later word overrides an earlier one with the same key, and a word
/// without `=` is ignored.
pub open spec fn filter_map(fs: Seq<Seq<char>>) -> Map<Seq<char>, Seq<char>>
    decreases fs.len(),
{
    if fs.len() == 0 {
        Map::empty()
    } else {
        let m = filter_map(fs.drop_last());
        let s = fs.last();
        if s.contains('=') {
            m.insert(s.subrange(0, eq_pos(s)), s.subrange(eq_pos(s) + 1, s.len() as int))
        } else {
            m
        }
    }
}

pub open spec fn texts(v: Seq<String>) -> Seq<Seq<char>> {
    v.map_values(|s: String| s@)
}

/// A list of pairs holds exactly the map `m`, each key once.
pub open spec fn pairs_hold(v: Seq<(String, String)>, m: Map<Seq<char>, Seq<char>>) -> bool {
    &&& forall|i: int, j: int| 0 <= i < j < v.len() ==> #[trigger] v[i].0@ != #[trigger] v[j].0@
    &&& forall|i: int| 0 <= i < v.len() ==> #[trigger] m.contains_key(v[i].0@) && m[v[i].0@] == v[i].1@
    &&& forall|k: Seq<char>| #[trigger] m.contains_key(k) ==> exists|i: int| 0 <= i < v.len() && #[trigger] v[i].0@ == k
}

proof fn lemma_eq_pos(s: Seq<char>, k: Seq<char>, v: Seq<char>)
    requires
        k + seq!['='] + v == s,
        !k.contains('='),
    ensures
        s.contains('='),
        eq_pos(s) == k.len(),
        s.subrange(0, eq_pos(s)) == k,
        s.subrange(eq_pos(s) + 1, s.len() as int) == v,
{
    let n = k.len() as int;
    assert(s[n] == '=');
    assert(forall|q: int| 0 <= q < n ==> s[q] == k[q]);
    let p = eq_pos(s);
    assert(0 <= p < s.len() && s[p] == '=' && forall|q: int| 0 <= q < p ==> s[q] != '=');
    if p < n {
        assert(k[p] == '=');
    }
    assert(p == n);
    assert(s.subrange(0, p) =~= k);
    assert(s.subrange(p + 1, s.len() as int) =~= v);
}

/// The position of the pair whose key is `key`.
fn find_key(pairs: &Vec<(String, String)>, key: &str) -> (r: Option<usize>)
    ensures
        r matches Some(j) ==> j < pairs@.len() && pairs@[j as int].0@ == key@,
        r is None ==> forall|q: int| 0 <= q < pairs@.len() ==> #[trigger] pairs@[q].0@ != key@,
{
    let mut j: usize = 0;
    while j < pairs.len()
        invariant
            j <= pairs@.len(),
            forall|q: int| 0 <= q < j ==> #[trigger] pairs@[q].0@ != key@,
        decreases pairs@.len() - j,
    {
        if same_text(pairs[j].0.as_str(), key) {
            return Some(j);
        }
        j = j + 1;
    }
    None
}

/// Sets `key` to `value`, in place when the key is already there.
fn upsert(pairs: &mut Vec<(String, String)>, key: String, value: String, Ghost(m): Ghost<Map<Seq<char>, Seq<char>>>)
    requires
        pairs_hold(old(pairs)@, m),
    ensures
        pairs_hold(final(pairs)@, m.insert(key@, value@)),
{
    let ghost m1 = m.insert(key@, value@);
    let ghost r0 = pairs@;
    match find_key(pairs, key.as_str()) {
        Some(j) => {
            pairs.set(j, (key, value));
            assert(forall|q: int| 0 <= q < pairs@.len() ==> #[trigger] pairs@[q].0@ == r0[q].0@);
            assert forall|q: int| 0 <= q < pairs@.len() implies #[trigger] m1.contains_key(pairs@[q].0@)
                && m1[pairs@[q].0@] == pairs@[q].1@ by {
                if q != j {
                    assert(pairs@[q] == r0[q]);
                    if q < j {
                        assert(r0[q].0@ != r0[j as int].0@);
                    } else {
                        assert(r0[j as int].0@ != r0[q].0@);
                    }
                }
            }
            assert forall|k: Seq<char>| #[trigger] m1.contains_key(k) implies exists|q: int|
                0 <= q < pairs@.len() && #[trigger] pairs@[q].0@ == k by {
                if k != key@ {
                    let q = choose|q: int| 0 <= q < r0.len() && #[trigger] r0[q].0@ == k;
                    assert(pairs@[q].0@ == k);
                } else {
                    assert(pairs@[j as int].0@ == k);
                }
            }
        },
        None => {
            pairs.push((key, value));
            assert(forall|q: int| 0 <= q < r0.len() ==> #[trigger] pairs@[q] == r0[q]);
            assert forall|a: int, b: int| 0 <= a < b < pairs@.len() implies #[trigger] pairs@[a].0@
                != #[trigger] pairs@[b].0@ by {
                if b < r0.len() {
                    assert(r0[a].0@ != r0[b].0@);
                } else {
                    assert(r0[a].0@ != key@);
                }
            }
            assert forall|k: Seq<char>| #[trigger] m1.contains_key(k) implies exists|q: int|
                0 <= q < pairs@.len() && #[trigger] pairs@[q].0@ == k by {
                if k != key@ {
                    let q = choose|q: int| 0 <= q < r0.len() && #[trigger] r0[q].0@ == k;
                    assert(pairs@[q].0@ == k);
                } else {
                    assert(pairs@[r0.len() as int].0@ == k);
                }
            }
        },
    }
}

/// Collects `key=value` filters into key/value pairs, each key once.
pub fn parse_filters(filters: Vec<String>) -> (r: Vec<(String, String)>)
    ensures
        pairs_hold(r@, filter_map(texts(filters@))),
{
    let mut r: Vec<(String, String)> = Vec::new();
    let mut i: usize = 0;
    while i < filters.len()
        invariant
            i <= filters@.len(),
            pairs_hold(r@, filter_map(texts(filters@).subrange(0, i as int))),
        decreases filters@.len() - i,
    {
        let ghost fs = texts(filters@).subrange(0, i + 1);
        let ghost m0 = filter_map(texts(filters@).subrange(0, i as int));
        proof {
            assert(fs.drop_last() =~= texts(filters@).subrange(0, i as int));
            assert(fs.last() == filters@[i as int]@);
        }
        match split_at_first(filters[i].as_str(), '=') {
            Some((key, value)) => {
                proof {
                    lemma_eq_pos(filters@[i as int]@, key@, value@);
                }
                assert(filter_map(fs) == m0.insert(key@, value@));
                upsert(&mut r, key, value, Ghost(m0));
            },
            None => {
                assert(filter_map(fs) == m0);
            },
        }
        i = i + 1;
    }
    assert(texts(filters@).subrange(0, filters@.len() as int) =~= texts(filters@));
    r
}

/// The request that a fetch command describes.
pub fn fetch_query(source: &str, limit: Option<usize>, filter: Vec<String>) -> (q: Query)
    ensures
        q.source == source_named(lower_of(source@)),
        q.limit == limit,
        q.wf(),
        pairs_hold(q.filters@, filter_map(texts(filter@))),
{
    Query { source: parse_source(source), filters: parse_filters(filter), limit }
}

} // verus!
