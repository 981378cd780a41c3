//! Call-tree extraction for fuzzing entry points: resolving call names
//! against a function catalog and rendering indented, cycle-safe call trees.

pub mod text;
pub mod catalog;
pub mod render;
pub mod extract;
pub mod harness;
