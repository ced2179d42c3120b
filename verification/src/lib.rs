use vstd::prelude::*;

pub mod config;
pub mod document;
pub mod edit;
pub mod embed;
pub mod identity;
pub mod index;
pub mod meta;
pub mod records;
pub mod relation;
pub mod strings;
pub mod strmap;
pub mod textdist;
pub mod validate;
pub mod vocab;
pub mod workspace;

verus! {

} // verus!
