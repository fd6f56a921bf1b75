//! A package browser's core: the Homebrew catalog model, fuzzy search,
//! the interactive application state and the decisions of its background work.
use vstd::prelude::*;

pub mod app;
pub mod catalog;
pub mod fuzzy;
pub mod model;
pub mod order;
pub mod screen;
pub mod sort;
pub mod text;
pub mod worker;

verus! {

} // verus!
