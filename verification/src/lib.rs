//! Verified core of the JetBrains `.vmoptions` helper.
use vstd::prelude::*;

pub mod app;
pub mod behaviour;
pub mod editor;
pub mod laws;
pub mod registry;
pub mod text;
pub mod vmoptions;

verus! {

} // verus!
