//! The product search box: which rows stay on show while the user types.

use vstd::prelude::*;
use crate::models::Product;

verus! {

/// The needle occurs in the haystack starting at position `k`.
pub open spec fn matches_at(hay: Seq<char>, needle: Seq<char>, k: int) -> bool {
    0 <= k && k + needle.len() <= hay.len() && hay.subrange(k, k + needle.len() as int) == needle
}

/// The needle occurs somewhere in the haystack (anywhere, for an empty
/// needle).
pub open spec fn contains_text(hay: Seq<char>, needle: Seq<char>) -> bool {
    exists|k: int| matches_at(hay, needle, k)
}

/// A row stays on show when the query occurs in its name.
pub open spec fn name_matches(p: Product, query: Seq<char>) -> bool {
    contains_text(p.name@, query)
}

/// The rows the search leaves on show, in their prior order.
pub open spec fn matching_products(rows: Seq<Product>, query: Seq<char>) -> Seq<Product> {
    rows.filter(|p: Product| name_matches(p, query))
}

/// Does the needle occur at exactly position `k`?
fn match_at(hay: &str, needle: &str, k: usize) -> (r: bool)
    requires
        k + needle@.len() <= hay@.len(),
    ensures
        r == matches_at(hay@, needle@, k as int),
{
    let n = hay.unicode_len();
    let m = needle.unicode_len();
    let mut i: usize = 0;
    while i < m
        invariant
            0 <= i <= m,
            n == hay@.len(),
            m == needle@.len(),
            k + m <= n,
            forall|t: int| 0 <= t < i ==> hay@[k + t] == needle@[t],
        decreases m - i,
    {
        if hay.get_char(k + i) != needle.get_char(i) {
            proof {
                assert(hay@.subrange(k as int, k + m as int)[i as int] == hay@[k + i]);
            }
            return false;
        }
        i = i + 1;
    }
    proof {
        assert(hay@.subrange(k as int, k + m as int) =~= needle@);
    }
    true
}

/// Does the needle occur anywhere in the haystack? Character-for-character
/// containment, the test the search box applies.
pub fn text_contains(hay: &str, needle: &str) -> (r: bool)
    ensures
        r == contains_text(hay@, needle@),
{
    let n = hay.unicode_len();
    let m = needle.unicode_len();
    if m > n {
        return false;
    }
    let mut k: usize = 0;
    while k <= n - m
        invariant
            m <= n,
            n == hay@.len(),
            m == needle@.len(),
            0 <= k <= n - m,
            forall|t: int| 0 <= t < k ==> !matches_at(hay@, needle@, t),
        decreases n - m - k,
    {
        if match_at(hay, needle, k) {
            return true;
        }
        if k == n - m {
            return false;
        }
        k = k + 1;
    }
    false
}

/// Keeps exactly the rows whose name contains the query, in their prior
/// order; an empty query keeps them all.
pub fn filter_products(rows: &Vec<Product>, query: &str) -> (r: Vec<Product>)
    ensures
        r@ == matching_products(rows@, query@),
{
    let mut out: Vec<Product> = Vec::new();
    let mut i: usize = 0;
    while i < rows.len()
        invariant
            0 <= i <= rows@.len(),
            out@ == matching_products(rows@.subrange(0, i as int), query@),
        decreases rows@.len() - i,
    {
        let ghost prefix = rows@.subrange(0, i as int);
        let ghost next_prefix = rows@.subrange(0, i + 1);
        proof {
            reveal(Seq::filter);
            assert(next_prefix.drop_last() =~= prefix);
            assert(next_prefix.last() == rows@[i as int]);
        }
        let row = &rows[i];
        if text_contains(row.name.as_str(), query) {
            out.push(row.clone());
        }
        i = i + 1;
    }
    proof {
        assert(rows@.subrange(0, rows@.len() as int) =~= rows@);
    }
    out
}

/// An empty query keeps every row: searching with a cleared box shows the
/// whole list again.
pub proof fn lemma_empty_query_keeps_all(rows: Seq<Product>)
    ensures
        matching_products(rows, Seq::<char>::empty()) == rows,
    decreases rows.len(),
{
    reveal(Seq::filter);
    if rows.len() > 0 {
        lemma_empty_query_keeps_all(rows.drop_last());
        let p = rows.last();
        assert(p.name@.subrange(0, 0) =~= Seq::<char>::empty());
        assert(matches_at(p.name@, Seq::<char>::empty(), 0));
        assert(matching_products(rows, Seq::<char>::empty()) =~= rows);
    } else {
        assert(matching_products(rows, Seq::<char>::empty()) =~= rows);
    }
}

} // verus!
