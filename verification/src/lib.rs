//! Authored rich text, and the writing engine around it.

use vstd::prelude::*;

pub mod content;
pub mod coordinator;
pub mod dsl;
pub mod engine;
pub mod json;
pub mod observe;
pub mod path;
pub mod provenance;
pub mod req;
pub mod search;
pub mod session;
pub mod skill;
pub mod text;
pub mod tool;

verus! {

} // verus!
