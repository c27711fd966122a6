//! The flat form of a whole store, and the rebuilding of a store from it.

use vstd::prelude::*;
use crate::collection::{items_map, keyed_by_name, lists_items, Collection};
use crate::finite_item::{label_of, FiniteItem};
use crate::item::{Item, ItemView};

verus! {

/// The text that shows each item of `s`, in order.
pub open spec fn labels_of(s: Seq<ItemView>) -> Seq<Seq<char>> {
    s.map_values(|v: ItemView| label_of(v))
}

#[derive(Debug, Clone)]
pub struct FiniteCollection {
    items: Vec<FiniteItem>,
}

impl View for FiniteCollection {
    type V = Seq<ItemView>;

    closed spec fn view(&self) -> Seq<ItemView> {
        self.items@.map_values(|it: FiniteItem| it@)
    }
}

impl FiniteCollection {
    pub fn new(items: Vec<FiniteItem>) -> (r: FiniteCollection)
        ensures
            r@ == items@.map_values(|it: FiniteItem| it@),
    {
        FiniteCollection { items }
    }

    pub fn items(&self) -> (r: &[FiniteItem])
        ensures
            r@.map_values(|it: FiniteItem| it@) == self@,
    {
        self.items.as_slice()
    }

    /// Rebuilds a store that holds each record under its name; a later record
    /// of the same name replaces an earlier one. Parent pairs are kept as
    /// names, so pairs that name the item itself, or no known item, stay as they are.
    pub fn to_collection(&self) -> (r: Collection)
        ensures
            r.wf(),
            r@ == items_map(self@),
    {
        let mut items: Vec<Item> = Vec::new();
        let mut i: usize = 0;
        while i < self.items.len()
            invariant
                i <= self.items@.len(),
                items@.len() == i,
                forall|j: int| 0 <= j < i ==> (#[trigger] items@[j])@ == self.items@[j]@,
            decreases self.items.len() - i,
        {
            items.push(self.items[i].to_full_item());
            i = i + 1;
        }
        assert(items@.map_values(|it: Item| it@) =~= self@);
        Collection::from_items(items)
    }

    /// The text that shows each record, in order.
    pub fn to_names(&self) -> (r: Vec<String>)
        ensures
            r@.map_values(|s: String| s@) == labels_of(self@),
    {
        let mut r: Vec<String> = Vec::new();
        let mut i: usize = 0;
        while i < self.items.len()
            invariant
                i <= self.items@.len(),
                r@.len() == i,
                forall|j: int| 0 <= j < i ==> (#[trigger] r@[j])@ == label_of(self.items@[j]@),
            decreases self.items.len() - i,
        {
            r.push(self.items[i].label());
            i = i + 1;
        }
        assert(r@.map_values(|s: String| s@) =~= labels_of(self@));
        r
    }
}

impl Collection {
    /// The flat record of every item, each once, in an unspecified order.
    pub fn to_finite_items(&self) -> (r: Vec<FiniteItem>)
        requires
            self.wf(),
        ensures
            lists_items(self@, r@.map_values(|it: FiniteItem| it@)),
    {
        let entries = self.entries();
        let mut r: Vec<FiniteItem> = Vec::new();
        let mut i: usize = 0;
        while i < entries.len()
            invariant
                i <= entries@.len(),
                r@.len() == i,
                forall|j: int| 0 <= j < i ==> (#[trigger] r@[j])@ == entries@[j]@,
            decreases entries.len() - i,
        {
            r.push(entries[i].to_finite());
            i = i + 1;
        }
        assert(r@.map_values(|it: FiniteItem| it@) =~= entries@.map_values(|it: Item| it@));
        r
    }

    /// The flat form of the whole store.
    pub fn to_finite(&self) -> (r: FiniteCollection)
        requires
            self.wf(),
        ensures
            lists_items(self@, r@),
    {
        FiniteCollection::new(self.to_finite_items())
    }

    /// The text that shows each item, each once, in an unspecified order.
    pub fn to_names(&self) -> (r: Vec<String>)
        requires
            self.wf(),
        ensures
            exists|s: Seq<ItemView>| #[trigger] lists_items(self@, s)
                && r@.map_values(|t: String| t@) == labels_of(s),
    {
        let fc = self.to_finite();
        let r = fc.to_names();
        assert(lists_items(self@, fc@));
        r
    }
}

proof fn lemma_items_map_keys(s: Seq<ItemView>)
    ensures
        keyed_by_name(items_map(s)),
        forall|k: Seq<char>| #[trigger] items_map(s).contains_key(k) <==> exists|i: int| 0 <= i < s.len() && (#[trigger] s[i]).name == k,
    decreases s.len(),
{
    if s.len() > 0 {
        let init = s.drop_last();
        lemma_items_map_keys(init);
        assert forall|k: Seq<char>| #[trigger] items_map(s).contains_key(k) implies exists|i: int| 0 <= i < s.len() && (#[trigger] s[i]).name == k by {
            if k != s.last().name {
                let i = choose|i: int| 0 <= i < init.len() && (#[trigger] init[i]).name == k;
                assert(s[i] == init[i]);
            } else {
                assert(s[s.len() - 1].name == k);
            }
        }
        assert forall|k: Seq<char>| (exists|i: int| 0 <= i < s.len() && (#[trigger] s[i]).name == k) implies #[trigger] items_map(s).contains_key(k) by {
            let i = choose|i: int| 0 <= i < s.len() && (#[trigger] s[i]).name == k;
            if i < s.len() - 1 {
                assert(init[i] == s[i]);
            }
        }
    }
}

proof fn lemma_items_map_values(s: Seq<ItemView>)
    requires
        forall|i: int, j: int| 0 <= i < s.len() && 0 <= j < s.len() && i != j ==> (#[trigger] s[i]).name != (#[trigger] s[j]).name,
    ensures
        forall|i: int| 0 <= i < s.len() ==> items_map(s).contains_key((#[trigger] s[i]).name) && items_map(s)[s[i].name] == s[i],
    decreases s.len(),
{
    lemma_items_map_keys(s);
    if s.len() > 0 {
        let init = s.drop_last();
        assert forall|i: int, j: int| 0 <= i < init.len() && 0 <= j < init.len() && i != j implies (#[trigger] init[i]).name != (#[trigger] init[j]).name by {
            assert(init[i] == s[i] && init[j] == s[j]);
        }
        lemma_items_map_values(init);
        assert forall|i: int| 0 <= i < s.len() implies items_map(s).contains_key((#[trigger] s[i]).name) && items_map(s)[s[i].name] == s[i] by {
            if i < s.len() - 1 {
                assert(init[i] == s[i]);
                assert(s[i].name != s[s.len() - 1].name);
            }
        }
    }
}

/// Flattening a store and rebuilding it gives back the same store: the same
/// names, and for each the same glyph, flag and parent pairs. Parent pairs
/// that name the item itself, or no item at all, are kept as they are.
pub proof fn lemma_round_trip(m: Map<Seq<char>, ItemView>, s: Seq<ItemView>)
    requires
        keyed_by_name(m),
        lists_items(m, s),
    ensures
        items_map(s) == m,
{
    lemma_items_map_keys(s);
    lemma_items_map_values(s);
    assert forall|k: Seq<char>| #[trigger] m.contains_key(k) implies items_map(s).contains_key(k) && items_map(s)[k] == m[k] by {
        let i = choose|i: int| 0 <= i < s.len() && (#[trigger] s[i]).name == k;
    }
    assert forall|k: Seq<char>| #[trigger] items_map(s).contains_key(k) implies m.contains_key(k) by {
        let i = choose|i: int| 0 <= i < s.len() && (#[trigger] s[i]).name == k;
    }
    assert(items_map(s) =~= m);
}

} // verus!
