//! The render pipeline description: passes, resources and their ordering.

pub mod compiler;
pub mod def;
pub mod graph;
pub mod resource;
pub mod frame;
