//! Verified core of a point-kernel photon shielding engine: the CSG
//! instruction machine, the CSG expression parser, world/cell builders and
//! the small validation rules of the simulation input.
mod std_specs;

pub mod csg;
pub mod names;
pub mod csg_parser;
pub mod expr;
pub mod infix;
pub mod csg_tree;
pub mod input;
pub mod world;
pub mod config;
pub mod atomic_number;
pub mod buildup;
pub mod report;
pub mod gui;
pub mod material;

pub use material::MaterialIndex;
