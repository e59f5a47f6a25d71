use vstd::prelude::*;
use vstd::string::{StrSliceExecFns, StringExecFns};

verus! {

/// The lower-case form of a text, as Rust's standard library computes it.
pub uninterp spec fn lower_of(s: Seq<char>) -> Seq<char>;

/// Relies on `str::to_lowercase`: the result depends on the characters alone.
#[verifier::external_body]
pub(crate) fn to_lowercase(s: &str) -> (r: String)
    ensures
        r@ == lower_of(s@),
{
    s.to_lowercase()
}

/// Whether two texts hold the same characters.
pub fn same_text(a: &str, b: &str) -> (r: bool)
    ensures
        r == (a@ == b@),
{
    let n = a.unicode_len();
    if n != b.unicode_len() {
        return false;
    }
    let mut i: usize = 0;
    while i < n
        invariant
            n == a@.len(),
            n == b@.len(),
            i <= n,
            forall|j: int| 0 <= j < i ==> a@[j] == b@[j],
        decreases n - i,
    {
        if a.get_char(i) != b.get_char(i) {
            return false;
        }
        i = i + 1;
    }
    assert(a@ =~= b@);
    true
}

/// Whether `s` begins with `prefix`.
pub fn starts_with(s: &str, prefix: &str) -> (r: bool)
    ensures
        r == prefix@.is_prefix_of(s@),
{
    let n = prefix.unicode_len();
    if n > s.unicode_len() {
        return false;
    }
    let mut i: usize = 0;
    while i < n
        invariant
            n == prefix@.len(),
            n <= s@.len(),
            i <= n,
            forall|j: int| 0 <= j < i ==> prefix@[j] == s@[j],
        decreases n - i,
    {
        if prefix.get_char(i) != s.get_char(i) {
            return false;
        }
        i = i + 1;
    }
    true
}

/// `s` without `prefix` when it begins with it, else `s` unchanged.
pub fn strip_prefix_or_keep(s: &str, prefix: &str) -> (r: String)
    ensures
        prefix@.is_prefix_of(s@) ==> r@ == s@.subrange(prefix@.len() as int, s@.len() as int),
        !prefix@.is_prefix_of(s@) ==> r@ == s@,
{
    if starts_with(s, prefix) {
        String::from_str(s.substring_char(prefix.unicode_len(), s.unicode_len()))
    } else {
        String::from_str(s)
    }
}

/// Splits `s` around the first occurrence of `sep`: the part before it holds no `sep`.
pub fn split_at_first(s: &str, sep: char) -> (r: Option<(String, String)>)
    ensures
        r is None <==> !s@.contains(sep),
        r matches Some((k, v)) ==> k@ + seq![sep] + v@ == s@ && !k@.contains(sep),
{
    let n = s.unicode_len();
    let mut i: usize = 0;
    while i < n
        invariant
            n == s@.len(),
            i <= n,
            forall|j: int| 0 <= j < i ==> s@[j] != sep,
        decreases n - i,
    {
        if s.get_char(i) == sep {
            let k = String::from_str(s.substring_char(0, i));
            let v = String::from_str(s.substring_char(i + 1, n));
            assert(k@ + seq![sep] + v@ =~= s@);
            assert(!k@.contains(sep)) by {
                if k@.contains(sep) {
                    let j = choose|j: int| 0 <= j < k@.len() && k@[j] == sep;
                    assert(s@[j] == sep);
                }
            }
            return Some((k, v));
        }
        i = i + 1;
    }
    assert(!s@.contains(sep)) by {
        if s@.contains(sep) {
            let j = choose|j: int| 0 <= j < s@.len() && s@[j] == sep;
            assert(s@[j] != sep);
        }
    }
    None
}

} // verus!
