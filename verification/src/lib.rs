use vstd::prelude::*;

pub mod engine;
pub mod error;
pub mod parser;
pub mod query;
pub mod schema;
pub mod values;

verus! {

} // verus!
