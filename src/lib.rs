//! A small persistent task list: tasks keyed by a numeric identifier, with
//! operations to add, delete and complete them, and the conversions that let
//! a caller write the whole list out and read it back.

use vstd::prelude::*;

pub mod task;
pub mod store;
pub mod laws;
pub mod input;

verus! {

} // verus!
