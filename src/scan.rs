//! The discovery engine: which pairs a scan tries, in which order, and how
//! each answer changes the store.

use vstd::prelude::*;
use crate::collection::{any_has_pair, lists_items, merged, Collection};
use crate::item::{nothing_name, Item, NOTHING};
use crate::response::{glyph_of, is_fatal_spec, outcome_view, ResponseFailure, ResponseSuccess};
use crate::pair::{
    lemma_name_lt_asymmetric, lemma_name_lt_irreflexive, lemma_name_lt_total, lemma_name_lt_transitive,
    lemma_pair_lt_irreflexive, lemma_pair_lt_transitive, name_lt, names_equal,
    pair_lt, pair_view, PairView,
};

verus! {

pub open spec fn names_view(v: Seq<String>) -> Seq<Seq<char>> {
    v.map_values(|s: String| s@)
}

pub open spec fn pairs_of(v: Seq<(String, String)>) -> Seq<PairView> {
    v.map_values(|p: (String, String)| pair_view(p))
}

/// Whether a scan over the names `names` tries the pair `p`: both names are
/// among them, the pair is in canonical order, neither name is the sentinel,
/// and no item of the store lists the pair yet.
pub open spec fn is_candidate(m: Map<Seq<char>, crate::item::ItemView>, names: Set<Seq<char>>, p: PairView) -> bool {
    &&& names.contains(p.0)
    &&& names.contains(p.1)
    &&& !name_lt(p.1, p.0)
    &&& p.0 != nothing_name()
    &&& p.1 != nothing_name()
    &&& !any_has_pair(m, p.0, p.1)
}

pub open spec fn strictly_sorted(s: Seq<PairView>) -> bool {
    forall|i: int, j: int| 0 <= i < j < s.len() ==> pair_lt(#[trigger] s[i], #[trigger] s[j])
}

pub open spec fn names_strictly_sorted(s: Seq<Seq<char>>) -> bool {
    forall|i: int, j: int| 0 <= i < j < s.len() ==> name_lt(#[trigger] s[i], #[trigger] s[j])
}

/// Whether `s` is the list of pairs that a scan over `names` tries: each
/// candidate once, in ascending order.
pub open spec fn is_candidate_list(m: Map<Seq<char>, crate::item::ItemView>, names: Set<Seq<char>>, s: Seq<PairView>) -> bool {
    &&& strictly_sorted(s)
    &&& forall|p: PairView| s.contains(p) <==> #[trigger] is_candidate(m, names, p)
}

/// Relies on `slice::sort`: the same names, in ascending order of `Ord for
/// String`, which is lexicographic by code point.
#[verifier::external_body]
fn sort_names(v: &mut Vec<String>)
    ensures
        names_view(final(v)@).to_multiset() == names_view(old(v)@).to_multiset(),
        forall|i: int, j: int| 0 <= i < j < final(v)@.len() ==> !name_lt(#[trigger] final(v)@[j]@, #[trigger] final(v)@[i]@),
{
    v.sort();
}

/// The names of `names` but the sentinel, each once, in ascending order.
pub fn distinct_names(names: &Vec<String>) -> (u: Vec<String>)
    ensures
        names_strictly_sorted(names_view(u@)),
        forall|x: Seq<char>| #[trigger] names_view(u@).contains(x) <==> (names_view(names@).contains(x) && x != nothing_name()),
{
    let mut sorted: Vec<String> = Vec::new();
    let mut i: usize = 0;
    while i < names.len()
        invariant
            i <= names@.len(),
            sorted@.len() == i,
            forall|j: int| 0 <= j < i ==> (#[trigger] sorted@[j])@ == names@[j]@,
        decreases names.len() - i,
    {
        sorted.push(names[i].clone());
        i = i + 1;
    }
    assert(names_view(sorted@) =~= names_view(names@));
    let ghost before = names_view(sorted@);
    sort_names(&mut sorted);
    proof {
        before.to_multiset_ensures();
        names_view(sorted@).to_multiset_ensures();
        assert forall|x: Seq<char>| names_view(sorted@).contains(x) <==> before.contains(x) by {
            assert(names_view(sorted@).to_multiset().count(x) == before.to_multiset().count(x));
        }
    }
    let mut u: Vec<String> = Vec::new();
    let mut i: usize = 0;
    while i < sorted.len()
        invariant
            i <= sorted@.len(),
            forall|a: int, b: int| 0 <= a < b < sorted@.len() ==> !name_lt(#[trigger] sorted@[b]@, #[trigger] sorted@[a]@),
            names_strictly_sorted(names_view(u@)),
            forall|k: int| 0 <= k < u@.len() ==> exists|j: int| 0 <= j < i && (#[trigger] u@[k])@ == (#[trigger] sorted@[j])@,
            forall|x: Seq<char>| #[trigger] names_view(u@).contains(x) <==> (exists|j: int| 0 <= j < i && (#[trigger] sorted@[j])@ == x) && x != nothing_name(),
        decreases sorted.len() - i,
    {
        let s = &sorted[i];
        let keep = if names_equal(s.as_str(), NOTHING) {
            false
        } else if u.len() == 0 {
            true
        } else {
            !names_equal(u[u.len() - 1].as_str(), s.as_str())
        };
        let ghost old_u = u@;
        if keep {
            proof {
                if u@.len() > 0 {
                    let last = u@[u@.len() - 1]@;
                    let j = choose|j: int| 0 <= j < i && (#[trigger] u@[u@.len() - 1])@ == (#[trigger] sorted@[j])@;
                    assert(!name_lt(sorted@[i as int]@, sorted@[j]@));
                    lemma_name_lt_total(last, s@);
                    assert(name_lt(last, s@));
                    assert forall|k: int| 0 <= k < u@.len() implies name_lt(#[trigger] u@[k]@, s@) by {
                        if k < u@.len() - 1 {
                            assert(name_lt(names_view(u@)[k], names_view(u@)[u@.len() - 1]));
                            lemma_name_lt_transitive(u@[k]@, last, s@);
                        }
                    }
                }
            }
            u.push(s.clone());
            proof {
                assert forall|a: int, b: int| 0 <= a < b < u@.len() implies name_lt(#[trigger] names_view(u@)[a], #[trigger] names_view(u@)[b]) by {
                    if b < u@.len() - 1 {
                        assert(names_view(old_u)[a] == names_view(u@)[a]);
                        assert(names_view(old_u)[b] == names_view(u@)[b]);
                    }
                }
            }
        }
        proof {
            assert forall|k: int| 0 <= k < u@.len() implies exists|j: int| 0 <= j < i + 1 && (#[trigger] u@[k])@ == (#[trigger] sorted@[j])@ by {
                if k < old_u.len() {
                    assert(u@[k] == old_u[k]);
                    let j = choose|j: int| 0 <= j < i && (#[trigger] old_u[k])@ == (#[trigger] sorted@[j])@;
                    assert(u@[k]@ == sorted@[j]@);
                } else {
                    assert(u@[k]@ == sorted@[i as int]@);
                }
            }
            assert forall|x: Seq<char>| #[trigger] names_view(u@).contains(x) <==> (exists|j: int| 0 <= j < i + 1 && (#[trigger] sorted@[j])@ == x) && x != nothing_name() by {
                if names_view(u@).contains(x) {
                    let k = choose|k: int| 0 <= k < names_view(u@).len() && names_view(u@)[k] == x;
                    if k < old_u.len() {
                        assert(names_view(old_u)[k] == x);
                        assert(names_view(old_u).contains(x));
                    } else {
                        assert(sorted@[i as int]@ == x);
                    }
                }
                if (exists|j: int| 0 <= j < i + 1 && (#[trigger] sorted@[j])@ == x) && x != nothing_name() {
                    let j = choose|j: int| 0 <= j < i + 1 && (#[trigger] sorted@[j])@ == x;
                    if j < i {
                        assert(names_view(old_u).contains(x));
                        let k = choose|k: int| 0 <= k < names_view(old_u).len() && names_view(old_u)[k] == x;
                        assert(names_view(u@)[k] == x);
                    } else if keep {
                        assert(names_view(u@)[u@.len() - 1] == x);
                    } else {
                        assert(names_view(u@)[u@.len() - 1] == x);
                    }
                }
            }
        }
        i = i + 1;
    }
    proof {
        assert forall|x: Seq<char>| #[trigger] names_view(u@).contains(x) <==> (names_view(names@).contains(x) && x != nothing_name()) by {
            if names_view(names@).contains(x) && x != nothing_name() {
                assert(names_view(sorted@).contains(x));
                let j = choose|j: int| 0 <= j < names_view(sorted@).len() && names_view(sorted@)[j] == x;
                assert(sorted@[j]@ == x);
            }
            if names_view(u@).contains(x) {
                let j = choose|j: int| 0 <= j < sorted@.len() && (#[trigger] sorted@[j])@ == x;
                assert(names_view(sorted@)[j] == x);
            }
        }
    }
    u
}

/// Whether `p` is a pair `(u[a], u[b])` with `a <= b`, before position
/// `(i, j)` in row order, that no item of `m` lists yet.
pub open spec fn in_grid(m: Map<Seq<char>, crate::item::ItemView>, u: Seq<Seq<char>>, i: int, j: int, p: PairView) -> bool {
    exists|a: int, b: int|
        0 <= a <= b < u.len() && (a < i || (a == i && b < j)) && p == (#[trigger] u[a], #[trigger] u[b])
            && !any_has_pair(m, p.0, p.1)
}

proof fn lemma_grid_row_end(m: Map<Seq<char>, crate::item::ItemView>, u: Seq<Seq<char>>, i: int, p: PairView)
    requires
        0 <= i < u.len(),
    ensures
        in_grid(m, u, i, u.len() as int, p) == in_grid(m, u, i + 1, i + 1, p),
{
    if in_grid(m, u, i, u.len() as int, p) {
        let (a, b) = choose|a: int, b: int|
            0 <= a <= b < u.len() && (a < i || (a == i && b < u.len())) && p == (#[trigger] u[a], #[trigger] u[b])
                && !any_has_pair(m, p.0, p.1);
        assert(a < i + 1);
    }
    if in_grid(m, u, i + 1, i + 1, p) {
        let (a, b) = choose|a: int, b: int|
            0 <= a <= b < u.len() && (a < i + 1 || (a == i + 1 && b < i + 1)) && p == (#[trigger] u[a], #[trigger] u[b])
                && !any_has_pair(m, p.0, p.1);
        assert(a < i || (a == i && b < u.len()));
    }
}

proof fn lemma_grid_complete(m: Map<Seq<char>, crate::item::ItemView>, names: Set<Seq<char>>, u: Seq<Seq<char>>, p: PairView)
    requires
        names_strictly_sorted(u),
        forall|x: Seq<char>| #[trigger] u.contains(x) <==> (names.contains(x) && x != nothing_name()),
    ensures
        in_grid(m, u, u.len() as int, u.len() as int, p) <==> is_candidate(m, names, p),
{
    if in_grid(m, u, u.len() as int, u.len() as int, p) {
        let (a, b) = choose|a: int, b: int|
            0 <= a <= b < u.len() && (a < u.len() || (a == u.len() && b < u.len())) && p == (#[trigger] u[a], #[trigger] u[b])
                && !any_has_pair(m, p.0, p.1);
        assert(u.contains(u[a]));
        assert(u.contains(u[b]));
        if a < b {
            lemma_name_lt_asymmetric(u[a], u[b]);
        } else {
            lemma_name_lt_irreflexive(u[a]);
        }
    }
    if is_candidate(m, names, p) {
        assert(u.contains(p.0));
        assert(u.contains(p.1));
        let a = choose|a: int| 0 <= a < u.len() && u[a] == p.0;
        let b = choose|b: int| 0 <= b < u.len() && u[b] == p.1;
        if b < a {
            assert(name_lt(u[b], u[a]));
        }
        assert(p == (u[a], u[b]));
    }
}

impl Collection {
    /// The pairs that a scan over the names `names` tries, each once, in
    /// ascending order. Whether a pair is known already is asked of the
    /// whole store, not only of `names`.
    pub fn candidates_among(&self, names: &Vec<String>) -> (r: Vec<(String, String)>)
        ensures
            is_candidate_list(self@, names_view(names@).to_set(), pairs_of(r@)),
    {
        let u = distinct_names(names);
        let ghost uv = names_view(u@);
        let n = u.len();
        let mut r: Vec<(String, String)> = Vec::new();
        let mut i: usize = 0;
        while i < n
            invariant
                i <= n,
                n == u@.len(),
                uv == names_view(u@),
                names_strictly_sorted(uv),
                strictly_sorted(pairs_of(r@)),
                i < n ==> forall|k: int| 0 <= k < r@.len() ==> name_lt((#[trigger] r@[k]).0@, uv[i as int]),
                forall|p: PairView| pairs_of(r@).contains(p) <==> #[trigger] in_grid(self@, uv, i as int, i as int, p),
            decreases n - i,
        {
            let mut j: usize = i;
            while j < n
                invariant
                    i < n,
                    i <= j <= n,
                    n == u@.len(),
                    uv == names_view(u@),
                    names_strictly_sorted(uv),
                    strictly_sorted(pairs_of(r@)),
                    forall|k: int| 0 <= k < r@.len() ==> (#[trigger] r@[k]).0@ == uv[i as int] || name_lt(r@[k].0@, uv[i as int]),
                    j < n ==> forall|k: int| 0 <= k < r@.len() ==> pair_lt(pair_view(#[trigger] r@[k]), (uv[i as int], uv[j as int])),
                    forall|p: PairView| pairs_of(r@).contains(p) <==> #[trigger] in_grid(self@, uv, i as int, j as int, p),
                decreases n - j,
            {
                let ghost old_r = r@;
                let ghost x: PairView = (uv[i as int], uv[j as int]);
                let fresh = !self.already_combined(u[i].as_str(), u[j].as_str());
                if fresh {
                    r.push((u[i].clone(), u[j].clone()));
                    proof {
                        assert(pairs_of(r@) =~= pairs_of(old_r).push(x));
                        assert forall|a: int, b: int| 0 <= a < b < pairs_of(r@).len() implies pair_lt(#[trigger] pairs_of(r@)[a], #[trigger] pairs_of(r@)[b]) by {
                            if b < old_r.len() {
                                assert(pairs_of(old_r)[a] == pairs_of(r@)[a]);
                                assert(pairs_of(old_r)[b] == pairs_of(r@)[b]);
                            } else {
                                assert(pairs_of(r@)[a] == pair_view(old_r[a]));
                            }
                        }
                    }
                }
                proof {
                    if j + 1 < n {
                        assert(name_lt(uv[j as int], uv[j + 1]));
                        assert forall|k: int| 0 <= k < r@.len() implies pair_lt(pair_view(#[trigger] r@[k]), (uv[i as int], uv[j + 1])) by {
                            if k < old_r.len() {
                                assert(r@[k] == old_r[k]);
                                lemma_pair_lt_transitive(pair_view(r@[k]), x, (uv[i as int], uv[j + 1]));
                            }
                        }
                    }
                    assert forall|p: PairView| pairs_of(r@).contains(p) <==> #[trigger] in_grid(self@, uv, i as int, j + 1, p) by {
                        if pairs_of(r@).contains(p) {
                            let k = choose|k: int| 0 <= k < pairs_of(r@).len() && pairs_of(r@)[k] == p;
                            if k < old_r.len() {
                                assert(pairs_of(old_r)[k] == p);
                                assert(pairs_of(old_r).contains(p));
                                assert(in_grid(self@, uv, i as int, j as int, p));
                                let (a, b) = choose|a: int, b: int|
                                    0 <= a <= b < uv.len() && (a < i || (a == i && b < j)) && p == (#[trigger] uv[a], #[trigger] uv[b])
                                        && !any_has_pair(self@, p.0, p.1);
                                assert(in_grid(self@, uv, i as int, j + 1, p));
                            } else {
                                assert(p == (uv[i as int], uv[j as int]));
                                assert(in_grid(self@, uv, i as int, j + 1, p));
                            }
                        }
                        if in_grid(self@, uv, i as int, j + 1, p) {
                            let (a, b) = choose|a: int, b: int|
                                0 <= a <= b < uv.len() && (a < i || (a == i && b < j + 1)) && p == (#[trigger] uv[a], #[trigger] uv[b])
                                    && !any_has_pair(self@, p.0, p.1);
                            if a < i || b < j {
                                assert(in_grid(self@, uv, i as int, j as int, p));
                                assert(pairs_of(old_r).contains(p));
                                let k = choose|k: int| 0 <= k < pairs_of(old_r).len() && pairs_of(old_r)[k] == p;
                                assert(pairs_of(r@)[k] == p);
                            } else {
                                assert(p == x);
                                assert(pairs_of(r@)[r@.len() - 1] == p);
                            }
                        }
                    }
                }
                j = j + 1;
            }
            proof {
                assert forall|p: PairView| pairs_of(r@).contains(p) <==> #[trigger] in_grid(self@, uv, i + 1, i + 1, p) by {
                    lemma_grid_row_end(self@, uv, i as int, p);
                }
                if i + 1 < n {
                    assert(name_lt(uv[i as int], uv[i + 1]));
                    assert forall|k: int| 0 <= k < r@.len() implies name_lt((#[trigger] r@[k]).0@, uv[i + 1]) by {
                        if r@[k].0@ != uv[i as int] {
                            lemma_name_lt_transitive(r@[k].0@, uv[i as int], uv[i + 1]);
                        }
                    }
                }
            }
            i = i + 1;
        }
        proof {
            let names_set = names_view(names@).to_set();
            assert forall|x: Seq<char>| #[trigger] uv.contains(x) <==> (names_set.contains(x) && x != nothing_name()) by {}
            assert forall|p: PairView| pairs_of(r@).contains(p) <==> #[trigger] is_candidate(self@, names_set, p) by {
                lemma_grid_complete(self@, names_set, uv, p);
            }
        }
        r
    }

    /// The pairs that a scan over the whole store tries, each once, in ascending order.
    pub fn candidates(&self) -> (r: Vec<(String, String)>)
        requires
            self.wf(),
        ensures
            is_candidate_list(self@, self@.dom(), pairs_of(r@)),
    {
        let items = self.entries();
        let mut names: Vec<String> = Vec::new();
        let mut i: usize = 0;
        while i < items.len()
            invariant
                i <= items@.len(),
                names@.len() == i,
                forall|j: int| 0 <= j < i ==> (#[trigger] names@[j])@ == items@[j]@.name,
            decreases items.len() - i,
        {
            names.push(items[i].name());
            i = i + 1;
        }
        let r = self.candidates_among(&names);
        proof {
            let s = items@.map_values(|it: Item| it@);
            assert(lists_items(self@, s));
            assert forall|x: Seq<char>| names_view(names@).to_set().contains(x) <==> self@.dom().contains(x) by {
                if self@.contains_key(x) {
                    let j = choose|j: int| 0 <= j < s.len() && (#[trigger] s[j]).name == x;
                    assert(names_view(names@)[j] == x);
                }
                if names_view(names@).contains(x) {
                    let j = choose|j: int| 0 <= j < names_view(names@).len() && names_view(names@)[j] == x;
                    assert(s[j].name == x);
                }
            }
            assert(names_view(names@).to_set() =~= self@.dom());
        }
        r
    }
}

proof fn lemma_sorted_unique(s1: Seq<PairView>, s2: Seq<PairView>)
    requires
        strictly_sorted(s1),
        strictly_sorted(s2),
        forall|p: PairView| s1.contains(p) <==> s2.contains(p),
    ensures
        s1 == s2,
    decreases s1.len(),
{
    if s1.len() == 0 {
        if s2.len() > 0 {
            assert(s2.contains(s2[0]));
        }
        assert(s1 =~= s2);
    } else {
        assert(s1.contains(s1[0]));
        assert(s2.contains(s2[0]));
        let k = choose|k: int| 0 <= k < s2.len() && s2[k] == s1[0];
        let l = choose|l: int| 0 <= l < s1.len() && s1[l] == s2[0];
        if k > 0 && l > 0 {
            assert(pair_lt(s2[0], s2[k]));
            assert(pair_lt(s1[0], s1[l]));
            lemma_pair_lt_transitive(s1[0], s2[0], s1[0]);
            lemma_pair_lt_irreflexive(s1[0]);
        }
        assert(s1[0] == s2[0]);
        let t1 = s1.drop_first();
        let t2 = s2.drop_first();
        assert forall|p: PairView| t1.contains(p) implies t2.contains(p) by {
            let a = choose|a: int| 0 <= a < t1.len() && t1[a] == p;
            assert(s1[a + 1] == p);
            assert(pair_lt(s1[0], s1[a + 1]));
            lemma_pair_lt_irreflexive(p);
            assert(s1.contains(p));
            let b = choose|b: int| 0 <= b < s2.len() && s2[b] == p;
            assert(b != 0);
            assert(t2[b - 1] == p);
        }
        assert forall|p: PairView| t2.contains(p) implies t1.contains(p) by {
            let a = choose|a: int| 0 <= a < t2.len() && t2[a] == p;
            assert(s2[a + 1] == p);
            assert(pair_lt(s2[0], s2[a + 1]));
            lemma_pair_lt_irreflexive(p);
            assert(s2.contains(p));
            let b = choose|b: int| 0 <= b < s1.len() && s1[b] == p;
            assert(b != 0);
            assert(t1[b - 1] == p);
        }
        lemma_sorted_unique(t1, t2);
        assert(s1 =~= seq![s1[0]] + t1);
        assert(s2 =~= seq![s2[0]] + t2);
    }
}

/// A scan's list of pairs is determined by the store and the scanned names:
/// two lists that both meet the description are the same list.
pub proof fn lemma_candidates_deterministic(
    m: Map<Seq<char>, crate::item::ItemView>,
    names: Set<Seq<char>>,
    s1: Seq<PairView>,
    s2: Seq<PairView>,
)
    requires
        is_candidate_list(m, names, s1),
        is_candidate_list(m, names, s2),
    ensures
        s1 == s2,
{
    assert forall|p: PairView| s1.contains(p) <==> s2.contains(p) by {
        assert(s1.contains(p) <==> is_candidate(m, names, p));
        assert(s2.contains(p) <==> is_candidate(m, names, p));
    }
    lemma_sorted_unique(s1, s2);
}

/// No pair of a scan's list holds the sentinel name, even where the scanned
/// names include it.
pub proof fn lemma_candidates_exclude_nothing(
    m: Map<Seq<char>, crate::item::ItemView>,
    names: Set<Seq<char>>,
    s: Seq<PairView>,
)
    requires
        is_candidate_list(m, names, s),
    ensures
        forall|i: int| 0 <= i < s.len() ==> (#[trigger] s[i]).0 != nothing_name() && s[i].1 != nothing_name(),
{
    assert forall|i: int| 0 <= i < s.len() implies (#[trigger] s[i]).0 != nothing_name() && s[i].1 != nothing_name() by {
        assert(s.contains(s[i]));
        assert(is_candidate(m, names, s[i]));
    }
}

/// How often, in pairs processed, a scan asks for a snapshot of the store.
pub const SNAPSHOT_EVERY: usize = 1000;

/// What the runner of a scan does next.
#[derive(Debug, Clone, Copy, PartialEq, Eq, Structural)]
pub enum Step {
    /// Go on with the next pair, saving a snapshot of the store first where `snapshot` holds.
    Continue { snapshot: bool },
    /// Every pair has been processed; `discovered` items were new to the store.
    Finished { discovered: usize },
    /// A fatal failure ended the scan after `completed` pairs; save a snapshot and report it.
    Aborted { completed: usize, failure: ResponseFailure },
}

/// The mathematical value of a [`Scan`].
pub struct ScanView {
    pub pairs: Seq<PairView>,
    pub next: nat,
    pub discovered: nat,
}

/// One scan in progress: its pairs in order, how many have been processed,
/// and how many items they gave that were new to the store.
pub struct Scan {
    pairs: Vec<(String, String)>,
    next: usize,
    discovered: usize,
}

impl View for Scan {
    type V = ScanView;

    closed spec fn view(&self) -> ScanView {
        ScanView { pairs: pairs_of(self.pairs@), next: self.next as nat, discovered: self.discovered as nat }
    }
}

/// What a scan asks of its runner once `next` of its pairs are processed.
pub open spec fn step_after(v: ScanView) -> Step {
    if v.next == v.pairs.len() {
        Step::Finished { discovered: v.discovered as usize }
    } else {
        Step::Continue { snapshot: v.next % (SNAPSHOT_EVERY as nat) == 0 }
    }
}

impl Scan {
    pub open spec fn wf(&self) -> bool {
        &&& self@.next <= self@.pairs.len()
        &&& self@.discovered <= self@.next
    }

    /// A scan that tries `pairs`, in this order.
    pub fn new(pairs: Vec<(String, String)>) -> (r: Scan)
        ensures
            r.wf(),
            r@ == (ScanView { pairs: pairs_of(pairs@), next: 0, discovered: 0 }),
    {
        Scan { pairs, next: 0, discovered: 0 }
    }

    /// A scan over the whole store.
    pub fn of_store(store: &Collection) -> (r: Scan)
        requires
            store.wf(),
        ensures
            r.wf(),
            r@.next == 0,
            r@.discovered == 0,
            is_candidate_list(store@, store@.dom(), r@.pairs),
    {
        Scan::new(store.candidates())
    }

    /// A scan over the names `names`; pairs that any item of the store lists are left out.
    pub fn of_names(store: &Collection, names: &Vec<String>) -> (r: Scan)
        ensures
            r.wf(),
            r@.next == 0,
            r@.discovered == 0,
            is_candidate_list(store@, names_view(names@).to_set(), r@.pairs),
    {
        Scan::new(store.candidates_among(names))
    }

    /// The number of pairs the scan tries.
    pub fn total(&self) -> (r: usize)
        ensures
            r == self@.pairs.len(),
    {
        self.pairs.len()
    }

    /// The number of pairs processed so far.
    pub fn completed(&self) -> (r: usize)
        ensures
            r == self@.next,
    {
        self.next
    }

    /// The number of items, new to the store, found so far.
    pub fn discovered(&self) -> (r: usize)
        ensures
            r == self@.discovered,
    {
        self.discovered
    }

    /// The pair to try next, or `None` when every pair has been processed.
    pub fn next_pair(&self) -> (r: Option<(String, String)>)
        requires
            self.wf(),
        ensures
            match r {
                Some(p) => self@.next < self@.pairs.len() && pair_view(p) == self@.pairs[self@.next as int],
                None => self@.next == self@.pairs.len(),
            },
    {
        if self.next < self.pairs.len() {
            Some((self.pairs[self.next].0.clone(), self.pairs[self.next].1.clone()))
        } else {
            None
        }
    }

    /// Takes in the classified answer for the next pair and merges it into
    /// `store`: a produced item is recorded with the pair as a parent; the
    /// sentinel records nothing, so a later scan tries that pair again; a
    /// failure that is not fatal skips the pair, and a fatal one stops the
    /// scan with the pair unprocessed.
    pub fn record(&mut self, store: &mut Collection, outcome: Result<ResponseSuccess, ResponseFailure>) -> (r: Step)
        requires
            old(self).wf(),
            old(self)@.next < old(self)@.pairs.len(),
            old(store).wf(),
        ensures
            final(self).wf(),
            final(store).wf(),
            final(self)@.pairs == old(self)@.pairs,
            ({
                let p = old(self)@.pairs[old(self)@.next as int];
                match outcome_view(outcome) {
                    Ok(Some(v)) => {
                        &&& final(store)@ == merged(old(store)@, v.result, glyph_of(v), v.is_new, p.0, p.1)
                        &&& final(self)@.next == old(self)@.next + 1
                        &&& final(self)@.discovered == old(self)@.discovered + if old(store)@.contains_key(v.result) { 0nat } else { 1nat }
                        &&& r == step_after(final(self)@)
                    },
                    Ok(None) => {
                        &&& final(store)@ == old(store)@
                        &&& final(self)@.next == old(self)@.next + 1
                        &&& final(self)@.discovered == old(self)@.discovered
                        &&& r == step_after(final(self)@)
                    },
                    Err(f) => {
                        &&& final(store)@ == old(store)@
                        &&& final(self)@.discovered == old(self)@.discovered
                        &&& if is_fatal_spec(f) {
                            &&& final(self)@.next == old(self)@.next
                            &&& r == (Step::Aborted { completed: old(self)@.next as usize, failure: f })
                        } else {
                            &&& final(self)@.next == old(self)@.next + 1
                            &&& r == step_after(final(self)@)
                        }
                    },
                }
            }),
    {
        let i = self.next;
        assert(pairs_of(self.pairs@).len() == self.pairs@.len());
        assert(i < self.pairs.len());
        assert(self.discovered <= i);
        match outcome {
            Ok(ResponseSuccess::Produced(resp)) => {
                let first = self.pairs[i].0.as_str();
                let second = self.pairs[i].1.as_str();
                let fresh = store.insert_or_update(resp.name(), resp.glyph(), resp.is_new(), first, second);
                if fresh {
                    self.discovered = self.discovered + 1;
                }
            },
            Ok(ResponseSuccess::Nothing) => {},
            Err(f) => {
                if f.is_fatal() {
                    return Step::Aborted { completed: i, failure: f };
                }
            },
        }
        self.next = i + 1;
        if self.next == self.pairs.len() {
            Step::Finished { discovered: self.discovered }
        } else {
            Step::Continue { snapshot: self.next % SNAPSHOT_EVERY == 0 }
        }
    }
}

} // verus!
