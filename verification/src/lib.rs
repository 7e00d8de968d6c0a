use vstd::prelude::*;

pub mod api;
pub mod command_service;
pub mod data_router;
pub mod edge_registry;
pub mod ids;
pub mod json;
pub mod keyed;
pub mod messaging;
pub mod object_builder;
pub mod partial_update;
pub mod schema_registry;
pub mod suppliers;
pub mod text;
pub mod versions;

verus! {
} // verus!
