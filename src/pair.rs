//! Item names, their total order, and canonical (unordered) name pairs.

use vstd::prelude::*;

verus! {

/// Lexicographic order on names, character by character by code point:
/// a proper prefix comes first.
pub open spec fn name_lt(a: Seq<char>, b: Seq<char>) -> bool
    decreases a.len(),
{
    if a.len() == 0 {
        b.len() > 0
    } else if b.len() == 0 {
        false
    } else if a[0] != b[0] {
        (a[0] as int) < (b[0] as int)
    } else {
        name_lt(a.drop_first(), b.drop_first())
    }
}

/// A pair of names as the view of a `(String, String)`.
pub type PairView = (Seq<char>, Seq<char>);

/// The canonical form of a pair: the smaller name first.
pub open spec fn canonical(a: Seq<char>, b: Seq<char>) -> PairView {
    if name_lt(b, a) {
        (b, a)
    } else {
        (a, b)
    }
}

/// Whether two pairs denote the same unordered pair of names.
pub open spec fn same_pair(p: PairView, q: PairView) -> bool {
    (p.0 == q.0 && p.1 == q.1) || (p.0 == q.1 && p.1 == q.0)
}

/// Strict order on canonical pairs: by first name, then by second name.
pub open spec fn pair_lt(p: PairView, q: PairView) -> bool {
    name_lt(p.0, q.0) || (p.0 == q.0 && name_lt(p.1, q.1))
}

pub open spec fn pair_view(p: (String, String)) -> PairView {
    (p.0@, p.1@)
}

pub proof fn lemma_name_lt_irreflexive(a: Seq<char>)
    ensures
        !name_lt(a, a),
    decreases a.len(),
{
    if a.len() > 0 {
        lemma_name_lt_irreflexive(a.drop_first());
    }
}

pub proof fn lemma_name_lt_asymmetric(a: Seq<char>, b: Seq<char>)
    ensures
        !(name_lt(a, b) && name_lt(b, a)),
    decreases a.len(),
{
    if a.len() > 0 && b.len() > 0 && a[0] == b[0] {
        lemma_name_lt_asymmetric(a.drop_first(), b.drop_first());
    }
}

pub proof fn lemma_name_lt_total(a: Seq<char>, b: Seq<char>)
    ensures
        a != b ==> (name_lt(a, b) || name_lt(b, a)),
    decreases a.len(),
{
    if a.len() > 0 && b.len() > 0 {
        if a[0] == b[0] {
            lemma_name_lt_total(a.drop_first(), b.drop_first());
            if a.drop_first() == b.drop_first() {
                assert(a =~= seq![a[0]] + a.drop_first());
                assert(b =~= seq![b[0]] + b.drop_first());
            }
        } else {
            assert((a[0] as int) != (b[0] as int));
        }
    } else if a.len() == 0 && b.len() == 0 {
        assert(a =~= b);
    }
}

pub proof fn lemma_name_lt_transitive(a: Seq<char>, b: Seq<char>, c: Seq<char>)
    requires
        name_lt(a, b),
        name_lt(b, c),
    ensures
        name_lt(a, c),
    decreases a.len(),
{
    if a.len() > 0 && a[0] == b[0] && b[0] == c[0] {
        lemma_name_lt_transitive(a.drop_first(), b.drop_first(), c.drop_first());
    }
}

pub proof fn lemma_pair_lt_transitive(p: PairView, q: PairView, r: PairView)
    requires
        pair_lt(p, q),
        pair_lt(q, r),
    ensures
        pair_lt(p, r),
{
    if name_lt(p.0, q.0) && name_lt(q.0, r.0) {
        lemma_name_lt_transitive(p.0, q.0, r.0);
    }
    if p.0 == q.0 && q.0 == r.0 && name_lt(p.1, q.1) && name_lt(q.1, r.1) {
        lemma_name_lt_transitive(p.1, q.1, r.1);
    }
}

pub proof fn lemma_pair_lt_irreflexive(p: PairView)
    ensures
        !pair_lt(p, p),
{
    lemma_name_lt_irreflexive(p.0);
    lemma_name_lt_irreflexive(p.1);
}

/// The canonical form of a pair does not depend on the order of its names.
pub proof fn lemma_canonical_symmetric(a: Seq<char>, b: Seq<char>)
    requires
        a != b,
    ensures
        canonical(a, b) == canonical(b, a),
{
    lemma_name_lt_total(a, b);
    lemma_name_lt_asymmetric(a, b);
}

/// Two pairs denote the same unordered pair exactly when their canonical forms agree.
pub proof fn lemma_same_pair_iff_canonical(p: PairView, q: PairView)
    ensures
        same_pair(p, q) <==> canonical(p.0, p.1) == canonical(q.0, q.1),
{
    lemma_name_lt_total(p.0, p.1);
    lemma_name_lt_asymmetric(p.0, p.1);
    lemma_name_lt_total(q.0, q.1);
    lemma_name_lt_asymmetric(q.0, q.1);
    lemma_name_lt_irreflexive(p.0);
    lemma_name_lt_irreflexive(q.0);
}

/// Relies on `Ord for str`, documented as lexicographic by byte values, which
/// for UTF-8 text orders by code point.
#[verifier::external_body]
pub(crate) fn name_less(a: &str, b: &str) -> (r: bool)
    ensures
        r == name_lt(a@, b@),
{
    a < b
}

/// Relies on `PartialEq for str`: equal exactly when the texts are equal.
#[verifier::external_body]
pub(crate) fn names_equal(a: &str, b: &str) -> (r: bool)
    ensures
        r == (a@ == b@),
{
    a == b
}

/// Orders two names so that the smaller comes first.
pub fn sort_items(first: &str, second: &str) -> (r: (String, String))
    ensures
        pair_view(r) == canonical(first@, second@),
{
    if name_less(second, first) {
        (second.to_string(), first.to_string())
    } else {
        (first.to_string(), second.to_string())
    }
}

} // verus!
