//! An item: a name, a display glyph, a first-discovery flag and the pairs of
//! names known to produce it.

use vstd::prelude::*;
use crate::pair::{names_equal, pair_view, same_pair, PairView};

verus! {

/// The mathematical value of an [`Item`].
pub struct ItemView {
    pub name: Seq<char>,
    pub emoji: Seq<char>,
    pub is_new: bool,
    pub parents: Seq<PairView>,
}

/// The views of a list of name pairs.
pub open spec fn pairs_view(v: Seq<(String, String)>) -> Seq<PairView> {
    v.map_values(|p: (String, String)| pair_view(p))
}

/// Whether a list of pairs holds the unordered pair `(a, b)`.
pub open spec fn has_pair(parents: Seq<PairView>, a: Seq<char>, b: Seq<char>) -> bool {
    exists|i: int| 0 <= i < parents.len() && same_pair(#[trigger] parents[i], (a, b))
}

/// The name of the sentinel result that stands for "no item".
pub const NOTHING: &'static str = "Nothing";

/// The glyph an item gets when none is known.
pub const PLACEHOLDER_EMOJI: &'static str = "❓️";

pub open spec fn nothing_name() -> Seq<char> {
    NOTHING@
}

#[derive(Debug, Clone)]
pub struct Item {
    name: String,
    emoji: String,
    is_new: bool,
    parents: Vec<(String, String)>,
}

impl View for Item {
    type V = ItemView;

    closed spec fn view(&self) -> ItemView {
        ItemView {
            name: self.name@,
            emoji: self.emoji@,
            is_new: self.is_new,
            parents: pairs_view(self.parents@),
        }
    }
}

/// Copies a list of name pairs.
pub fn copy_pairs(v: &Vec<(String, String)>) -> (r: Vec<(String, String)>)
    ensures
        pairs_view(r@) == pairs_view(v@),
{
    let mut r: Vec<(String, String)> = Vec::new();
    let mut i: usize = 0;
    while i < v.len()
        invariant
            i <= v.len(),
            r@.len() == i,
            forall|j: int| 0 <= j < i ==> pair_view(#[trigger] r@[j]) == pair_view(v@[j]),
        decreases v.len() - i,
    {
        let p = (v[i].0.clone(), v[i].1.clone());
        r.push(p);
        i = i + 1;
    }
    assert(pairs_view(r@) =~= pairs_view(v@));
    r
}

impl Item {
    pub fn new(name: &str, emoji: &str, is_new: bool) -> (r: Item)
        ensures
            r@ == (ItemView { name: name@, emoji: emoji@, is_new, parents: seq![] }),
    {
        let r = Item { name: name.to_string(), emoji: emoji.to_string(), is_new, parents: Vec::new() };
        assert(pairs_view(r.parents@) =~= seq![]);
        r
    }

    pub fn new_with_parents(name: &str, emoji: &str, is_new: bool, first: &str, second: &str) -> (r: Item)
        ensures
            r@ == (ItemView { name: name@, emoji: emoji@, is_new, parents: seq![(first@, second@)] }),
    {
        let mut parents: Vec<(String, String)> = Vec::new();
        parents.push((first.to_string(), second.to_string()));
        let r = Item { name: name.to_string(), emoji: emoji.to_string(), is_new, parents };
        assert(pairs_view(r.parents@) =~= seq![(first@, second@)]);
        r
    }

    /// Builds an item from its parts, as they are.
    pub fn from_parts(name: String, emoji: String, is_new: bool, parents: Vec<(String, String)>) -> (r: Item)
        ensures
            r@ == (ItemView { name: name@, emoji: emoji@, is_new, parents: pairs_view(parents@) }),
    {
        Item { name, emoji, is_new, parents }
    }

    /// A copy of this item.
    pub fn duplicate(&self) -> (r: Item)
        ensures
            r@ == self@,
    {
        Item {
            name: self.name.clone(),
            emoji: self.emoji.clone(),
            is_new: self.is_new,
            parents: copy_pairs(&self.parents),
        }
    }

    pub fn name(&self) -> (r: String)
        ensures
            r@ == self@.name,
    {
        self.name.clone()
    }

    pub fn as_str(&self) -> (r: &str)
        ensures
            r@ == self@.name,
    {
        self.name.as_str()
    }

    pub fn emoji(&self) -> (r: &str)
        ensures
            r@ == self@.emoji,
    {
        self.emoji.as_str()
    }

    pub fn is_new(&self) -> (r: bool)
        ensures
            r == self@.is_new,
    {
        self.is_new
    }

    pub fn parents(&self) -> (r: &[(String, String)])
        ensures
            pairs_view(r@) == self@.parents,
    {
        self.parents.as_slice()
    }

    pub fn is_nothing(&self) -> (r: bool)
        ensures
            r == (self@.name == nothing_name()),
    {
        names_equal(self.name.as_str(), NOTHING)
    }

    pub fn push_parents(&mut self, first: String, second: String)
        ensures
            final(self)@ == (ItemView { parents: old(self)@.parents.push((first@, second@)), ..old(self)@ }),
    {
        let ghost f = first@;
        let ghost s = second@;
        self.parents.push((first, second));
        assert(pairs_view(self.parents@) =~= old(self)@.parents.push((f, s)));
    }

    /// Whether `(first, second)`, in either order, is among the item's parents.
    pub fn contains_parents(&self, first: &str, second: &str) -> (r: bool)
        ensures
            r == has_pair(self@.parents, first@, second@),
    {
        let mut i: usize = 0;
        while i < self.parents.len()
            invariant
                i <= self.parents.len(),
                forall|j: int| 0 <= j < i ==> !same_pair(#[trigger] self@.parents[j], (first@, second@)),
            decreases self.parents.len() - i,
        {
            let p = &self.parents[i];
            let a = p.0.as_str();
            let b = p.1.as_str();
            if (names_equal(a, first) && names_equal(b, second)) || (names_equal(a, second) && names_equal(b, first)) {
                assert(same_pair(self@.parents[i as int], (first@, second@)));
                return true;
            }
            i = i + 1;
        }
        false
    }
}

} // verus!
