use crate::domain::{DomainError, Query};
use crate::text::{same_text, strip_prefix_or_keep};
use vstd::prelude::*;
use vstd::string::StringExecFns;

verus! {

/// One block of a document page, reduced to what its text is made of: the block's type
/// and, when the block carries a rich-text list, the plain text of each of its elements
/// (`None` for an element without one).
pub struct NotionBlock {
    pub block_type: String,
    pub rich_text: Option<Vec<Option<String>>>,
}

/// The marker written before the text of a list item.
pub open spec fn bullet() -> Seq<char> {
    "â€¢ "@
}

pub open spec fn is_text_block(t: Seq<char>) -> bool {
    t == "paragraph"@ || t == "heading_1"@ || t == "heading_2"@ || t == "heading_3"@
}

pub open spec fn is_list_block(t: Seq<char>) -> bool {
    t == "bulleted_list_item"@ || t == "numbered_list_item"@
}

/// The plain texts of a rich-text list, each followed by `end`; elements without
/// plain text are passed over.
pub open spec fn joined(parts: Seq<Option<String>>, end: Seq<char>) -> Seq<char>
    decreases parts.len(),
{
    if parts.len() == 0 {
        Seq::empty()
    } else {
        joined(parts.drop_last(), end) + match parts.last() {
            Some(t) => t@ + end,
            None => Seq::empty(),
        }
    }
}

/// The text of one block: each text of a paragraph or heading on a line of its own; a
/// list item as one line, its texts run together behind the bullet; nothing for other
/// blocks, or for a block without a rich-text list.
pub open spec fn block_text(b: NotionBlock) -> Seq<char> {
    match b.rich_text {
        None => Seq::empty(),
        Some(parts) => if is_text_block(b.block_type@) {
            joined(parts@, seq!['\n'])
        } else if is_list_block(b.block_type@) {
            bullet() + joined(parts@, Seq::empty()) + seq!['\n']
        } else {
            Seq::empty()
        },
    }
}

pub open spec fn blocks_text(bs: Seq<NotionBlock>) -> Seq<char>
    decreases bs.len(),
{
    if bs.len() == 0 {
        Seq::empty()
    } else {
        blocks_text(bs.drop_last()) + block_text(bs.last())
    }
}

/// Appends the plain texts of `parts` to `text`, each followed by `end`.
fn push_parts(text: &mut String, parts: &Vec<Option<String>>, end: &str)
    ensures
        final(text)@ == old(text)@ + joined(parts@, end@),
{
    let mut i: usize = 0;
    while i < parts.len()
        invariant
            i <= parts@.len(),
            text@ == old(text)@ + joined(parts@.subrange(0, i as int), end@),
        decreases parts@.len() - i,
    {
        proof {
            let next = parts@.subrange(0, i + 1);
            assert(next.drop_last() =~= parts@.subrange(0, i as int));
            assert(next.last() == parts@[i as int]);
        }
        match &parts[i] {
            Some(t) => {
                text.append(t.as_str());
                text.append(end);
            },
            None => {},
        }
        i = i + 1;
    }
    assert(parts@.subrange(0, parts@.len() as int) =~= parts@);
}

fn block_kind_text(t: &str) -> (r: bool)
    ensures
        r == is_text_block(t@),
{
    same_text(t, "paragraph") || same_text(t, "heading_1") || same_text(t, "heading_2")
        || same_text(t, "heading_3")
}

fn block_kind_list(t: &str) -> (r: bool)
    ensures
        r == is_list_block(t@),
{
    same_text(t, "bulleted_list_item") || same_text(t, "numbered_list_item")
}

/// The flattened text of a page's blocks, block after block.
pub fn extract_text_from_blocks(blocks: &Vec<NotionBlock>) -> (r: String)
    ensures
        r@ == blocks_text(blocks@),
{
    let mut text = String::new();
    let mut i: usize = 0;
    while i < blocks.len()
        invariant
            i <= blocks@.len(),
            text@ == blocks_text(blocks@.subrange(0, i as int)),
        decreases blocks@.len() - i,
    {
        proof {
            let next = blocks@.subrange(0, i + 1);
            assert(next.drop_last() =~= blocks@.subrange(0, i as int));
            assert(next.last() == blocks@[i as int]);
        }
        let b = &blocks[i];
        let ghost before = text@;
        match &b.rich_text {
            Some(parts) => {
                if block_kind_text(b.block_type.as_str()) {
                    push_parts(&mut text, parts, "\n");
                    proof {
                        reveal_strlit("\n");
                        assert("\n"@ =~= seq!['\n']);
                    }
                    assert(text@ =~= before + joined(parts@, seq!['\n']));
                } else if block_kind_list(b.block_type.as_str()) {
                    text.append("â€¢ ");
                    push_parts(&mut text, parts, "");
                    text.append("\n");
                    proof {
                        reveal_strlit("\n");
                        reveal_strlit("");
                        assert("\n"@ =~= seq!['\n']);
                        assert(""@ =~= Seq::<char>::empty());
                    }
                    assert(text@ =~= before + (bullet() + joined(parts@, Seq::empty()) + seq!['\n']));
                } else {
                    assert(text@ =~= before + Seq::<char>::empty());
                }
            },
            None => {
                assert(text@ =~= before + Seq::<char>::empty());
            },
        }
        i = i + 1;
    }
    assert(blocks@.subrange(0, blocks@.len() as int) =~= blocks@);
    text
}

/// The title of a page: the first of the candidate titles that is present, taken from
/// the page's properties in order, or "Untitled".
pub open spec fn title_of(titles: Seq<Option<String>>) -> Seq<char>
    decreases titles.len(),
{
    if titles.len() == 0 {
        "Untitled"@
    } else {
        match titles[0] {
            Some(t) => t@,
            None => title_of(titles.drop_first()),
        }
    }
}

/// Picks a page's title among the plain texts that its properties offer as titles.
pub fn extract_title_from_page(titles: &Vec<Option<String>>) -> (r: String)
    ensures
        r@ == title_of(titles@),
{
    let mut i: usize = 0;
    assert(titles@.subrange(0, titles@.len() as int) =~= titles@);
    while i < titles.len()
        invariant
            i <= titles@.len(),
            title_of(titles@.subrange(i as int, titles@.len() as int)) == title_of(titles@),
        decreases titles@.len() - i,
    {
        let rest = Ghost(titles@.subrange(i as int, titles@.len() as int));
        assert(rest@.drop_first() =~= titles@.subrange(i + 1, titles@.len() as int));
        match &titles[i] {
            Some(t) => {
                return t.clone();
            },
            None => {},
        }
        i = i + 1;
    }
    String::from_str("Untitled")
}

/// The id under which a page of the document workspace is known to callers.
pub fn notion_resource_id(page_id: &str) -> (r: String)
    ensures
        r@ == "notion_"@ + page_id@,
{
    String::from_str("notion_").concat(page_id)
}

/// The id under which an issue of the tracker is known to callers.
pub fn linear_resource_id(issue_id: &str) -> (r: String)
    ensures
        r@ == "linear_"@ + issue_id@,
{
    String::from_str("linear_").concat(issue_id)
}

/// The page id inside a resource id: without its "notion_" prefix, if it has one.
pub fn notion_page_id(id: &str) -> (r: String)
    ensures
        "notion_"@.is_prefix_of(id@) ==> r@ == id@.subrange("notion_"@.len() as int, id@.len() as int),
        !"notion_"@.is_prefix_of(id@) ==> r@ == id@,
{
    strip_prefix_or_keep(id, "notion_")
}

/// The issue id inside a resource id: without its "linear_" prefix, if it has one.
pub fn linear_issue_id(id: &str) -> (r: String)
    ensures
        "linear_"@.is_prefix_of(id@) ==> r@ == id@.subrange("linear_"@.len() as int, id@.len() as int),
        !"linear_"@.is_prefix_of(id@) ==> r@ == id@,
{
    strip_prefix_or_keep(id, "linear_")
}

/// Turning a page id into a resource id and back gives the page id.
pub proof fn lemma_notion_id_round_trip(page_id: Seq<char>)
    ensures
        "notion_"@.is_prefix_of("notion_"@ + page_id),
        ("notion_"@ + page_id).subrange("notion_"@.len() as int, ("notion_"@ + page_id).len() as int) == page_id,
{
    let id = "notion_"@ + page_id;
    let n = "notion_"@.len() as int;
    assert(id.subrange(0, n) =~= "notion_"@);
    assert(id.subrange(n, id.len() as int) =~= page_id);
}

/// Turning an issue id into a resource id and back gives the issue id.
pub proof fn lemma_linear_id_round_trip(issue_id: Seq<char>)
    ensures
        "linear_"@.is_prefix_of("linear_"@ + issue_id),
        ("linear_"@ + issue_id).subrange("linear_"@.len() as int, ("linear_"@ + issue_id).len() as int) == issue_id,
{
    let id = "linear_"@ + issue_id;
    let n = "linear_"@.len() as int;
    assert(id.subrange(0, n) =~= "linear_"@);
    assert(id.subrange(n, id.len() as int) =~= issue_id);
}

/// How many issues one request to the tracker asks for: the query's limit, 50 when it
/// has none, and never more than 250.
pub fn linear_page_size(limit: Option<usize>) -> (r: usize)
    ensures
        r == match limit {
            Some(l) => if l < 250 { l } else { 250 },
            None => 50,
        },
{
    match limit {
        Some(l) => if l < 250 { l } else { 250 },
        None => 50,
    }
}

/// The database that a query to the document workspace reads: its "database_id" filter,
/// which such a query must have.
pub fn notion_database_id(query: &Query) -> (r: Result<String, DomainError>)
    ensures
        r matches Ok(d) ==> exists|i: int|
            0 <= i < query.filters@.len() && #[trigger] query.filters@[i].0@ == "database_id"@
                && d@ == query.filters@[i].1@ && forall|j: int|
                0 <= j < i ==> #[trigger] query.filters@[j].0@ != "database_id"@,
        r is Err <==> forall|i: int|
            0 <= i < query.filters@.len() ==> #[trigger] query.filters@[i].0@ != "database_id"@,
        r matches Err(e) ==> e matches DomainError::InvalidQuery(m) && m@
            == "database_id required for Notion queries"@,
{
    let mut i: usize = 0;
    while i < query.filters.len()
        invariant
            i <= query.filters@.len(),
            forall|j: int| 0 <= j < i ==> #[trigger] query.filters@[j].0@ != "database_id"@,
        decreases query.filters@.len() - i,
    {
        if same_text(query.filters[i].0.as_str(), "database_id") {
            let d = query.filters[i].1.clone();
            return Ok(d);
        }
        i = i + 1;
    }
    Err(DomainError::InvalidQuery(String::from_str("database_id required for Notion queries")))
}

/// The texts of `parts`, with `sep` between each two.
pub open spec fn joined_with(parts: Seq<String>, sep: Seq<char>) -> Seq<char>
    decreases parts.len(),
{
    if parts.len() == 0 {
        Seq::empty()
    } else if parts.len() == 1 {
        parts[0]@
    } else {
        joined_with(parts.drop_last(), sep) + sep + parts.last()@
    }
}

/// What a reply of the tracker's GraphQL endpoint amounts to: the errors it reports,
/// joined into one provider error; else its data, which a reply without errors must
/// carry.
pub fn graphql_outcome<T>(errors: Option<Vec<String>>, data: Option<T>) -> (r: Result<T, DomainError>)
    ensures
        errors matches Some(es) ==> (r matches Err(DomainError::ProviderError(m)) && m@
            == "GraphQL errors: "@ + joined_with(es@, ", "@)),
        errors is None && data is Some ==> r == Ok::<T, DomainError>(data->Some_0),
        errors is None && data is None ==> (r matches Err(DomainError::ProviderError(m)) && m@
            == "No data in response"@),
{
    match errors {
        Some(es) => {
            let mut text = String::from_str("GraphQL errors: ");
            let ghost start = text@;
            let mut i: usize = 0;
            while i < es.len()
                invariant
                    i <= es@.len(),
                    text@ == start + joined_with(es@.subrange(0, i as int), ", "@),
                decreases es@.len() - i,
            {
                let ghost before = es@.subrange(0, i as int);
                let ghost next = es@.subrange(0, i + 1);
                assert(next.drop_last() =~= before);
                assert(next.last() == es@[i as int]);
                if i > 0 {
                    text.append(", ");
                } else {
                    assert(before.len() == 0);
                }
                text.append(es[i].as_str());
                i = i + 1;
            }
            assert(es@.subrange(0, es@.len() as int) =~= es@);
            Err(DomainError::ProviderError(text))
        },
        None => match data {
            Some(d) => Ok(d),
            None => Err(DomainError::ProviderError(String::from_str("No data in response"))),
        },
    }
}

/// The error for a page that the document workspace refused to return, with the text
/// of its reply.
pub fn notion_page_missing(reply: &str) -> (e: DomainError)
    ensures
        e matches DomainError::ResourceNotFound(m) && m@ == "Notion page not found: "@ + reply@,
{
    DomainError::ResourceNotFound(String::from_str("Notion page not found: ").concat(reply))
}

/// The issue of a lookup in the tracker, or not-found when the reply holds none.
pub fn linear_issue_found<T>(issue: Option<T>, issue_id: &str) -> (r: Result<T, DomainError>)
    ensures
        issue is Some ==> r == Ok::<T, DomainError>(issue->Some_0),
        issue is None ==> (r matches Err(DomainError::ResourceNotFound(m)) && m@
            == "Linear issue not found: "@ + issue_id@),
{
    match issue {
        Some(i) => Ok(i),
        None => Err(DomainError::ResourceNotFound(String::from_str("Linear issue not found: ").concat(issue_id))),
    }
}

} // verus!
