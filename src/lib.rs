//! Declarative 2D layout and draw batching: grid placement, shape meshes,
//! mesh batches, a node tree and a glyph atlas packer, all in integer pixels.

pub mod area;
pub mod error;
pub mod events;
pub mod font;
pub mod mesh;
pub mod node;
pub mod shader;
pub mod shape;
pub mod style;
pub mod text;
