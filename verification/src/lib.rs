use vstd::prelude::*;

pub mod labels;
pub mod text;
pub mod postmatch;
pub mod snapshot;
pub mod datasets;
pub mod tracking;
pub mod fields;
pub mod listing;
pub mod rift;
pub mod events;
pub mod urn;
pub mod modifiers;
pub mod entity_table;
pub mod sinners;
pub mod breakables;

verus! {

} // verus!
