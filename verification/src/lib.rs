use vstd::prelude::*;

pub mod app;
pub mod bible;
pub mod bible_laws;
pub mod display;
pub mod display_laws;
pub mod laws;
pub mod search_laws;
pub mod text;

verus! {

} // verus!
