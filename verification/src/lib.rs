use vstd::prelude::*;

pub mod converter;
pub mod dates;
pub mod domain;
pub mod events;
pub mod highlight;
pub mod pages;
pub mod pipeline;
pub mod related;
pub mod tags;
pub mod text;

verus! {

} // verus!
