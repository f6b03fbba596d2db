//! Small helpers on strings and lists of strings that the rest of the
//! library shares.

use vstd::prelude::*;

verus! {

/// Whether two optional strings hold the same text (or are both absent).
pub fn opt_eq(a: &Option<String>, b: &Option<String>) -> (r: bool)
    ensures
        r == (a.deep_view() == b.deep_view()),
{
    match (a, b) {
        (Some(x), Some(y)) => *x == *y,
        (None, None) => true,
        _ => false,
    }
}

/// A copy of an optional string.
pub fn clone_opt(a: &Option<String>) -> (r: Option<String>)
    ensures
        r == *a,
{
    match a {
        Some(x) => Some(x.clone()),
        None => None,
    }
}

/// A copy of a list of strings.
pub fn clone_strs(v: &Vec<String>) -> (r: Vec<String>)
    ensures
        r@ == v@,
        r.deep_view() == v.deep_view(),
{
    let mut r: Vec<String> = Vec::new();
    let mut i: usize = 0;
    while i < v.len()
        invariant
            i <= v.len(),
            r@ == v@.subrange(0, i as int),
        decreases v.len() - i,
    {
        r.push(v[i].clone());
        assert(r@ =~= v@.subrange(0, i + 1));
        i += 1;
    }
    assert(r@ =~= v@);
    assert(r.deep_view() =~= v.deep_view());
    r
}

/// Whether two lists hold the same strings in the same order.
pub fn strs_eq(a: &Vec<String>, b: &Vec<String>) -> (r: bool)
    ensures
        r == (a.deep_view() == b.deep_view()),
{
    if a.len() != b.len() {
        assert(a.deep_view().len() != b.deep_view().len());
        return false;
    }
    let mut i: usize = 0;
    while i < a.len()
        invariant
            i <= a.len(),
            a.len() == b.len(),
            forall|j: int| 0 <= j < i ==> a[j]@ == b[j]@,
        decreases a.len() - i,
    {
        if a[i] != b[i] {
            assert(a.deep_view()[i as int] == a[i as int]@);
            assert(b.deep_view()[i as int] == b[i as int]@);
            return false;
        }
        i += 1;
    }
    assert(a.deep_view() =~= b.deep_view());
    true
}

/// Whether `x` occurs in `xs`.
pub fn contains_str(xs: &Vec<String>, x: &String) -> (r: bool)
    ensures
        r == xs.deep_view().contains(x@),
{
    let mut i: usize = 0;
    while i < xs.len()
        invariant
            i <= xs.len(),
            forall|j: int| 0 <= j < i ==> xs[j]@ != x@,
        decreases xs.len() - i,
    {
        if xs[i] == *x {
            assert(xs.deep_view()[i as int] == x@);
            return true;
        }
        i += 1;
    }
    assert forall|j: int| 0 <= j < xs.deep_view().len() implies xs.deep_view()[j] != x@ by {
        assert(xs.deep_view()[j] == xs[j]@);
    }
    false
}

/// Two collections of strings, each read as a set, have a member in common.
pub open spec fn intersects(a: Seq<Seq<char>>, b: Seq<Seq<char>>) -> bool {
    exists|s: Seq<char>| a.contains(s) && b.contains(s)
}

/// Whether some string occurs in both lists.
pub fn share_member(a: &Vec<String>, b: &Vec<String>) -> (r: bool)
    ensures
        r == intersects(a.deep_view(), b.deep_view()),
{
    let mut i: usize = 0;
    while i < a.len()
        invariant
            i <= a.len(),
            forall|j: int| 0 <= j < i ==> !b.deep_view().contains(#[trigger] a[j]@),
        decreases a.len() - i,
    {
        if contains_str(b, &a[i]) {
            assert(a.deep_view()[i as int] == a[i as int]@);
            assert(a.deep_view().contains(a[i as int]@));
            return true;
        }
        i += 1;
    }
    assert forall|s: Seq<char>| a.deep_view().contains(s) implies !b.deep_view().contains(s) by {
        let j = choose|j: int| 0 <= j < a.deep_view().len() && a.deep_view()[j] == s;
        assert(a.deep_view()[j] == a[j]@);
    }
    false
}

} // verus!
