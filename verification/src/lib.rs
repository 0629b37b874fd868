//! Verified core of a creature simulator: body-plan topology, controller
//! sizing, genome unpacking, mesh index buffers, render-instance grouping,
//! evaluation bookkeeping and the input/event decisions of the viewer.

pub mod mesh;
pub mod instances;
pub mod network;
pub mod blueprint;
pub mod creature;
pub mod evaluation;
pub mod viewer;
pub mod camera;
pub mod link_tree;
