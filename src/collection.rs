//! The item store: every known item, keyed by name, in a concurrent map.

use vstd::prelude::*;
use dashmap::DashMap;
use crate::item::{has_pair, Item, ItemView};
use crate::pair::{same_pair, PairView};

verus! {

#[verifier::external_type_specification]
#[verifier::external_body]
#[verifier::reject_recursive_types(K)]
#[verifier::reject_recursive_types(V)]
#[verifier::reject_recursive_types(S)]
pub struct ExDashMap<K, V, S>(DashMap<K, V, S>);

/// The concurrent map that holds the items.
pub type ItemMap = DashMap<String, Item>;

/// What a map of items holds: each key's view and its item's view.
pub uninterp spec fn entries_of(m: ItemMap) -> Map<Seq<char>, ItemView>;

/// Relies on `DashMap::new`: the new map is empty.
#[verifier::external_body]
fn map_new() -> (r: ItemMap)
    ensures
        entries_of(r) =~= Map::empty(),
{
    DashMap::new()
}

/// Relies on `DashMap::len`: the number of entries.
#[verifier::external_body]
fn map_len(m: &ItemMap) -> (r: usize)
    ensures
        r == entries_of(*m).len(),
{
    m.len()
}

/// Relies on `DashMap::get`: the entry under `key`, if any (cloned out of its guard).
#[verifier::external_body]
fn map_get(m: &ItemMap, key: &str) -> (r: Option<Item>)
    ensures
        match r {
            Some(it) => entries_of(*m).contains_key(key@) && it@ == entries_of(*m)[key@],
            None => !entries_of(*m).contains_key(key@),
        },
{
    m.get(key).map(|e| e.value().clone())
}

/// Relies on `DashMap::insert`: `key` now holds `value`; other entries stay.
#[verifier::external_body]
fn map_insert(m: &mut ItemMap, key: String, value: Item)
    ensures
        entries_of(*final(m)) == entries_of(*old(m)).insert(key@, value@),
{
    m.insert(key, value);
}

/// Relies on `DashMap::iter`: it visits each entry once, in an unspecified
/// order (each key and item cloned out of its guard).
#[verifier::external_body]
fn map_entries(m: &ItemMap) -> (r: Vec<(String, Item)>)
    ensures
        r@.len() == entries_of(*m).len(),
        forall|i: int|
            0 <= i < r@.len() ==> entries_of(*m).contains_key((#[trigger] r@[i]).0@)
                && entries_of(*m)[r@[i].0@] == r@[i].1@,
        forall|i: int, j: int| 0 <= i < r@.len() && 0 <= j < r@.len() && i != j ==> (#[trigger] r@[i]).0@ != (#[trigger] r@[j]).0@,
        forall|k: Seq<char>| #[trigger] entries_of(*m).contains_key(k) ==> exists|i: int| 0 <= i < r@.len() && (#[trigger] r@[i]).0@ == k,
{
    m.iter().map(|e| (e.key().clone(), e.value().clone())).collect()
}

/// Whether some item of `m` lists the unordered pair `(a, b)` among its parents.
pub open spec fn any_has_pair(m: Map<Seq<char>, ItemView>, a: Seq<char>, b: Seq<char>) -> bool {
    exists|k: Seq<char>| #[trigger] m.contains_key(k) && has_pair(m[k].parents, a, b)
}

/// The store after a combination of `first` and `second` gave the item `name`:
/// a new item with that one parent pair, or the pair appended to the known
/// item unless it is there already. A known item keeps its glyph and flag.
pub open spec fn merged(
    m: Map<Seq<char>, ItemView>,
    name: Seq<char>,
    emoji: Seq<char>,
    is_new: bool,
    first: Seq<char>,
    second: Seq<char>,
) -> Map<Seq<char>, ItemView> {
    if !m.contains_key(name) {
        m.insert(name, ItemView { name, emoji, is_new, parents: seq![(first, second)] })
    } else if has_pair(m[name].parents, first, second) {
        m
    } else {
        m.insert(name, ItemView { parents: m[name].parents.push((first, second)), ..m[name] })
    }
}

/// The map that holds each item of `s` under its name; a later item of the
/// same name replaces an earlier one.
pub open spec fn items_map(s: Seq<ItemView>) -> Map<Seq<char>, ItemView>
    decreases s.len(),
{
    if s.len() == 0 {
        Map::empty()
    } else {
        items_map(s.drop_last()).insert(s.last().name, s.last())
    }
}

/// Whether `s` lists each item of `m` exactly once, in some order.
pub open spec fn lists_items(m: Map<Seq<char>, ItemView>, s: Seq<ItemView>) -> bool {
    &&& s.len() == m.len()
    &&& forall|i: int| 0 <= i < s.len() ==> m.contains_key((#[trigger] s[i]).name) && m[s[i].name] == s[i]
    &&& forall|i: int, j: int| 0 <= i < s.len() && 0 <= j < s.len() && i != j ==> (#[trigger] s[i]).name != (#[trigger] s[j]).name
    &&& forall|k: Seq<char>| #[trigger] m.contains_key(k) ==> exists|i: int| 0 <= i < s.len() && (#[trigger] s[i]).name == k
}

/// The store's seed items.
pub open spec fn seed_items() -> Map<Seq<char>, ItemView> {
    Map::empty()
        .insert("Water"@, ItemView { name: "Water"@, emoji: "💧"@, is_new: false, parents: seq![] })
        .insert("Fire"@, ItemView { name: "Fire"@, emoji: "🔥"@, is_new: false, parents: seq![] })
        .insert("Wind"@, ItemView { name: "Wind"@, emoji: "🌬️"@, is_new: false, parents: seq![] })
        .insert("Earth"@, ItemView { name: "Earth"@, emoji: "🌍️"@, is_new: false, parents: seq![] })
}

/// Every item of `m` is stored under its own name.
pub open spec fn keyed_by_name(m: Map<Seq<char>, ItemView>) -> bool {
    forall|k: Seq<char>| #[trigger] m.contains_key(k) ==> m[k].name == k
}

/// The set of all known items, keyed by name.
pub struct Collection {
    items: ItemMap,
}

impl View for Collection {
    type V = Map<Seq<char>, ItemView>;

    closed spec fn view(&self) -> Map<Seq<char>, ItemView> {
        entries_of(self.items)
    }
}

impl Default for Collection {
    /// A store that holds the four seed items.
    fn default() -> (r: Collection)
        ensures
            r.wf(),
            r@ == seed_items(),
    {
        Collection::new()
    }
}

impl Collection {
    /// The store's invariant: each item sits under its own name.
    pub open spec fn wf(&self) -> bool {
        keyed_by_name(self@)
    }

    /// A store that holds the four seed items.
    pub fn new() -> (r: Collection)
        ensures
            r.wf(),
            r@ == seed_items(),
    {
        let mut items = map_new();
        map_insert(&mut items, "Water".to_string(), Item::new("Water", "💧", false));
        map_insert(&mut items, "Fire".to_string(), Item::new("Fire", "🔥", false));
        map_insert(&mut items, "Wind".to_string(), Item::new("Wind", "🌬️", false));
        map_insert(&mut items, "Earth".to_string(), Item::new("Earth", "🌍️", false));
        let r = Collection { items };
        assert(r@ =~= seed_items());
        r
    }

    /// A store that holds exactly the given items.
    pub fn from_items(items: Vec<Item>) -> (r: Collection)
        ensures
            r.wf(),
            r@ == items_map(items@.map_values(|it: Item| it@)),
    {
        let ghost views = items@.map_values(|it: Item| it@);
        let mut map = map_new();
        let mut i: usize = 0;
        while i < items.len()
            invariant
                i <= items.len(),
                views == items@.map_values(|it: Item| it@),
                keyed_by_name(entries_of(map)),
                entries_of(map) == items_map(views.subrange(0, i as int)),
            decreases items.len() - i,
        {
            let it = items[i].duplicate();
            let key = it.name();
            map_insert(&mut map, key, it);
            i = i + 1;
            assert(views.subrange(0, i as int).drop_last() =~= views.subrange(0, i - 1));
        }
        assert(views.subrange(0, items.len() as int) =~= views);
        Collection { items: map }
    }

    /// Every item, each once, in an unspecified order.
    pub fn entries(&self) -> (r: Vec<Item>)
        requires
            self.wf(),
        ensures
            lists_items(self@, r@.map_values(|it: Item| it@)),
    {
        let entries = map_entries(&self.items);
        let mut r: Vec<Item> = Vec::new();
        let mut i: usize = 0;
        while i < entries.len()
            invariant
                i <= entries@.len(),
                r@.len() == i,
                forall|j: int| 0 <= j < i ==> (#[trigger] r@[j])@ == entries@[j].1@,
            decreases entries.len() - i,
        {
            r.push(entries[i].1.duplicate());
            i = i + 1;
        }
        let ghost s = r@.map_values(|it: Item| it@);
        assert forall|j: int| 0 <= j < s.len() implies self@.contains_key((#[trigger] s[j]).name) && self@[s[j].name] == s[j] by {
            assert(self@.contains_key(entries@[j].0@));
        }
        assert forall|i: int, j: int| 0 <= i < s.len() && 0 <= j < s.len() && i != j implies (#[trigger] s[i]).name != (#[trigger] s[j]).name by {
            assert(self@.contains_key(entries@[i].0@));
            assert(self@.contains_key(entries@[j].0@));
            assert(entries@[i].0@ != entries@[j].0@);
        }
        assert forall|k: Seq<char>| #[trigger] self@.contains_key(k) implies exists|i: int| 0 <= i < s.len() && (#[trigger] s[i]).name == k by {
            let i = choose|i: int| 0 <= i < entries@.len() && (#[trigger] entries@[i]).0@ == k;
            assert(s[i].name == k);
        }
        r
    }

    pub fn len(&self) -> (r: usize)
        ensures
            r == self@.len(),
    {
        map_len(&self.items)
    }

    pub fn is_empty(&self) -> (r: bool)
        ensures
            r == (self@.len() == 0),
    {
        self.len() == 0
    }

    /// The item called `name`, if it is known.
    pub fn get_item(&self, name: &str) -> (r: Option<Item>)
        ensures
            match r {
                Some(it) => self@.contains_key(name@) && it@ == self@[name@],
                None => !self@.contains_key(name@),
            },
    {
        map_get(&self.items, name)
    }

    /// Stores an item with no parents under `name`, replacing any item of that name.
    pub fn add_item(&mut self, name: &str, emoji: &str)
        requires
            old(self).wf(),
        ensures
            final(self).wf(),
            final(self)@ == old(self)@.insert(name@, ItemView { name: name@, emoji: emoji@, is_new: false, parents: seq![] }),
    {
        map_insert(&mut self.items, name.to_string(), Item::new(name, emoji, false));
    }

    /// Records that `first` and `second` give the item `name`. An unknown name
    /// becomes an item with this one parent pair, `emoji` and `is_new`; a known
    /// item gains the pair unless it lists it already, in either order.
    /// Returns whether the item is new to the store.
    pub fn insert_or_update(&mut self, name: &str, emoji: &str, is_new: bool, first: &str, second: &str) -> (r: bool)
        requires
            old(self).wf(),
        ensures
            final(self).wf(),
            final(self)@ == merged(old(self)@, name@, emoji@, is_new, first@, second@),
            r == !old(self)@.contains_key(name@),
    {
        match map_get(&self.items, name) {
            None => {
                let it = Item::new_with_parents(name, emoji, is_new, first, second);
                map_insert(&mut self.items, name.to_string(), it);
                true
            },
            Some(mut it) => {
                if !it.contains_parents(first, second) {
                    it.push_parents(first.to_string(), second.to_string());
                    map_insert(&mut self.items, name.to_string(), it);
                }
                false
            },
        }
    }

    /// Whether the item `name` is known and lists `(first, second)`, in either order.
    pub fn contains_pair(&self, name: &str, first: &str, second: &str) -> (r: bool)
        ensures
            r == (self@.contains_key(name@) && has_pair(self@[name@].parents, first@, second@)),
    {
        match map_get(&self.items, name) {
            None => false,
            Some(it) => it.contains_parents(first, second),
        }
    }

    /// Whether any item lists `(first, second)`, in either order, among its parents.
    pub fn already_combined(&self, first: &str, second: &str) -> (r: bool)
        ensures
            r == any_has_pair(self@, first@, second@),
    {
        let entries = map_entries(&self.items);
        let mut i: usize = 0;
        while i < entries.len()
            invariant
                i <= entries@.len(),
                forall|j: int| 0 <= j < entries@.len() ==> self@.contains_key((#[trigger] entries@[j]).0@)
                    && self@[entries@[j].0@] == entries@[j].1@,
                forall|k: Seq<char>| #[trigger] self@.contains_key(k) ==> exists|j: int| 0 <= j < entries@.len() && (#[trigger] entries@[j]).0@ == k,
                forall|j: int| 0 <= j < i ==> !has_pair((#[trigger] entries@[j]).1@.parents, first@, second@),
            decreases entries.len() - i,
        {
            if entries[i].1.contains_parents(first, second) {
                assert(self@.contains_key(entries@[i as int].0@));
                return true;
            }
            i = i + 1;
        }
        assert forall|k: Seq<char>| #[trigger] self@.contains_key(k) implies !has_pair(self@[k].parents, first@, second@) by {
            let j = choose|j: int| 0 <= j < entries@.len() && (#[trigger] entries@[j]).0@ == k;
            assert(!has_pair(entries@[j].1@.parents, first@, second@));
        }
        false
    }
}

/// Recording the same combination twice leaves the store as recording it once,
/// and the result item then lists that pair.
pub proof fn lemma_merge_idempotent(
    m: Map<Seq<char>, ItemView>,
    name: Seq<char>,
    emoji: Seq<char>,
    is_new: bool,
    first: Seq<char>,
    second: Seq<char>,
)
    ensures
        merged(merged(m, name, emoji, is_new, first, second), name, emoji, is_new, first, second)
            == merged(m, name, emoji, is_new, first, second),
        merged(m, name, emoji, is_new, first, second).contains_key(name),
        has_pair(merged(m, name, emoji, is_new, first, second)[name].parents, first, second),
{
    let m1 = merged(m, name, emoji, is_new, first, second);
    if !m.contains_key(name) {
        assert(same_pair(m1[name].parents[0], (first, second)));
    } else if !has_pair(m[name].parents, first, second) {
        let n = m[name].parents.len() as int;
        assert(same_pair(m1[name].parents[n], (first, second)));
    }
}

/// How many entries of `parents` denote the unordered pair `(a, b)`.
pub open spec fn pair_count(parents: Seq<PairView>, a: Seq<char>, b: Seq<char>) -> nat
    decreases parents.len(),
{
    if parents.len() == 0 {
        0
    } else {
        pair_count(parents.drop_last(), a, b) + if same_pair(parents.last(), (a, b)) { 1nat } else { 0nat }
    }
}

proof fn lemma_pair_count_zero(parents: Seq<PairView>, a: Seq<char>, b: Seq<char>)
    requires
        !has_pair(parents, a, b),
    ensures
        pair_count(parents, a, b) == 0,
    decreases parents.len(),
{
    if parents.len() > 0 {
        let init = parents.drop_last();
        assert forall|i: int| 0 <= i < init.len() implies !same_pair(#[trigger] init[i], (a, b)) by {
            assert(init[i] == parents[i]);
        }
        lemma_pair_count_zero(init, a, b);
        assert(!same_pair(parents[parents.len() - 1], (a, b)));
    }
}

/// Where an item did not list a pair yet, recording the pair twice leaves
/// exactly one entry of it among the item's parents.
pub proof fn lemma_merge_twice_one_entry(
    m: Map<Seq<char>, ItemView>,
    name: Seq<char>,
    emoji: Seq<char>,
    is_new: bool,
    first: Seq<char>,
    second: Seq<char>,
)
    requires
        m.contains_key(name) ==> !has_pair(m[name].parents, first, second),
    ensures
        pair_count(
            merged(merged(m, name, emoji, is_new, first, second), name, emoji, is_new, first, second)[name].parents,
            first,
            second,
        ) == 1,
{
    lemma_merge_idempotent(m, name, emoji, is_new, first, second);
    let m1 = merged(m, name, emoji, is_new, first, second);
    if !m.contains_key(name) {
        let ps = m1[name].parents;
        assert(ps.drop_last() =~= Seq::<PairView>::empty());
        assert(pair_count(ps.drop_last(), first, second) == 0);
    } else {
        let ps = m1[name].parents;
        assert(ps.drop_last() =~= m[name].parents);
        lemma_pair_count_zero(m[name].parents, first, second);
    }
}

/// Once any item lists a pair, the store reports the pair as combined, in
/// either order of its names.
pub proof fn lemma_listed_pair_is_combined(m: Map<Seq<char>, ItemView>, name: Seq<char>, a: Seq<char>, b: Seq<char>)
    requires
        m.contains_key(name),
        has_pair(m[name].parents, a, b),
    ensures
        any_has_pair(m, a, b),
        any_has_pair(m, b, a),
{
    let i = choose|i: int| 0 <= i < m[name].parents.len() && same_pair(#[trigger] m[name].parents[i], (a, b));
    assert(same_pair(m[name].parents[i], (b, a)));
    assert(has_pair(m[name].parents, b, a));
}

/// Recording a combination makes its pair count as combined for the whole store.
pub proof fn lemma_merge_marks_combined(
    m: Map<Seq<char>, ItemView>,
    name: Seq<char>,
    emoji: Seq<char>,
    is_new: bool,
    first: Seq<char>,
    second: Seq<char>,
)
    ensures
        any_has_pair(merged(m, name, emoji, is_new, first, second), first, second),
        any_has_pair(merged(m, name, emoji, is_new, first, second), second, first),
{
    lemma_merge_idempotent(m, name, emoji, is_new, first, second);
    lemma_listed_pair_is_combined(merged(m, name, emoji, is_new, first, second), name, first, second);
}

} // verus!
