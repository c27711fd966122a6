//! A library that records the combination graph of a crafting game: which
//! named items exist and which unordered pairs of names produce each of them.

pub mod pair;
pub mod item;
pub mod collection;
pub mod finite_item;
pub mod finite_collection;
pub mod response;
pub mod scan;
pub mod codec;
