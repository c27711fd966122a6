//! The flat record of an item that is written to and read from disk.

use vstd::prelude::*;
use crate::item::{copy_pairs, pairs_view, Item, ItemView};

verus! {

/// The text that shows an item: its glyph, its name, and a sparkle if it was
/// a first discovery.
pub open spec fn label_of(v: ItemView) -> Seq<char> {
    v.emoji + " "@ + v.name + if v.is_new { " ✨"@ } else { Seq::empty() }
}

/// The views of a list of borrowed name pairs.
pub open spec fn str_pairs_view(v: Seq<(&str, &str)>) -> Seq<(Seq<char>, Seq<char>)> {
    v.map_values(|p: (&str, &str)| (p.0@, p.1@))
}

#[derive(Debug, Clone)]
pub struct FiniteItem {
    name: String,
    emoji: String,
    is_new: bool,
    parents: Vec<(String, String)>,
}

impl View for FiniteItem {
    type V = ItemView;

    closed spec fn view(&self) -> ItemView {
        ItemView {
            name: self.name@,
            emoji: self.emoji@,
            is_new: self.is_new,
            parents: pairs_view(self.parents@),
        }
    }
}

/// Builds the text that shows an item.
pub fn label(name: &str, emoji: &str, is_new: bool) -> (r: String)
    ensures
        r@ == label_of(ItemView { name: name@, emoji: emoji@, is_new, parents: seq![] }),
{
    let mut r = emoji.to_string();
    r.append(" ");
    r.append(name);
    if is_new {
        r.append(" ✨");
    }
    proof {
        if !is_new {
            assert(r@ =~= emoji@ + " "@ + name@ + Seq::<char>::empty());
        }
    }
    r
}

impl FiniteItem {
    pub fn new(name: &str, emoji: &str, is_new: bool, parents: Vec<(&str, &str)>) -> (r: FiniteItem)
        ensures
            r@ == (ItemView { name: name@, emoji: emoji@, is_new, parents: str_pairs_view(parents@) }),
    {
        let mut owned: Vec<(String, String)> = Vec::new();
        let mut i: usize = 0;
        while i < parents.len()
            invariant
                i <= parents@.len(),
                owned@.len() == i,
                forall|j: int| 0 <= j < i ==> (#[trigger] owned@[j]).0@ == parents@[j].0@ && owned@[j].1@ == parents@[j].1@,
            decreases parents.len() - i,
        {
            owned.push((parents[i].0.to_string(), parents[i].1.to_string()));
            i = i + 1;
        }
        assert(pairs_view(owned@) =~= str_pairs_view(parents@));
        FiniteItem { name: name.to_string(), emoji: emoji.to_string(), is_new, parents: owned }
    }

    /// Builds a record from its parts, as they are.
    pub fn from_parts(name: String, emoji: String, is_new: bool, parents: Vec<(String, String)>) -> (r: FiniteItem)
        ensures
            r@ == (ItemView { name: name@, emoji: emoji@, is_new, parents: pairs_view(parents@) }),
    {
        FiniteItem { name, emoji, is_new, parents }
    }

    /// The item without its parents.
    pub fn to_item(&self) -> (r: Item)
        ensures
            r@ == (ItemView { parents: seq![], ..self@ }),
    {
        Item::new(self.name.as_str(), self.emoji.as_str(), self.is_new)
    }

    /// The item with all its parents.
    pub fn to_full_item(&self) -> (r: Item)
        ensures
            r@ == self@,
    {
        Item::from_parts(self.name.clone(), self.emoji.clone(), self.is_new, copy_pairs(&self.parents))
    }

    pub fn name(&self) -> (r: &str)
        ensures
            r@ == self@.name,
    {
        self.name.as_str()
    }

    pub fn emoji(&self) -> (r: &str)
        ensures
            r@ == self@.emoji,
    {
        self.emoji.as_str()
    }

    pub fn is_new(&self) -> (r: bool)
        ensures
            r == self@.is_new,
    {
        self.is_new
    }

    pub fn has_parents(&self) -> (r: bool)
        ensures
            r == (self@.parents.len() > 0),
    {
        self.parents.len() > 0
    }

    pub fn parents(&self) -> (r: Vec<(&str, &str)>)
        ensures
            str_pairs_view(r@) == self@.parents,
    {
        let mut r: Vec<(&str, &str)> = Vec::new();
        let mut i: usize = 0;
        while i < self.parents.len()
            invariant
                i <= self.parents@.len(),
                r@.len() == i,
                forall|j: int| 0 <= j < i ==> (#[trigger] r@[j]).0@ == self.parents@[j].0@ && r@[j].1@ == self.parents@[j].1@,
            decreases self.parents.len() - i,
        {
            r.push((self.parents[i].0.as_str(), self.parents[i].1.as_str()));
            i = i + 1;
        }
        assert(str_pairs_view(r@) =~= pairs_view(self.parents@));
        r
    }

    /// The text that shows this item.
    pub fn label(&self) -> (r: String)
        ensures
            r@ == label_of(self@),
    {
        label(self.name.as_str(), self.emoji.as_str(), self.is_new)
    }
}

impl Item {
    /// The text that shows this item.
    pub fn label(&self) -> (r: String)
        ensures
            r@ == label_of(self@),
    {
        label(self.as_str(), self.emoji(), self.is_new())
    }

    /// The flat record of this item.
    pub fn to_finite(&self) -> (r: FiniteItem)
        ensures
            r@ == self@,
    {
        let ps = self.parents();
        let mut owned: Vec<(String, String)> = Vec::new();
        let mut i: usize = 0;
        while i < ps.len()
            invariant
                i <= ps@.len(),
                pairs_view(ps@) == self@.parents,
                owned@.len() == i,
                forall|j: int| 0 <= j < i ==> (#[trigger] owned@[j]).0@ == ps@[j].0@ && owned@[j].1@ == ps@[j].1@,
            decreases ps.len() - i,
        {
            owned.push((ps[i].0.clone(), ps[i].1.clone()));
            i = i + 1;
        }
        assert(pairs_view(owned@) =~= pairs_view(ps@));
        FiniteItem::from_parts(self.name(), self.emoji().to_string(), self.is_new(), owned)
    }
}

} // verus!
