use vstd::prelude::*;

verus! {

/// The pipeline stage a shader source is compiled for.
#[derive(Clone, Copy, Debug, PartialEq, Eq, Structural)]
pub enum ShaderStage {
    Vertex,
    Fragment,
    Compute,
}

} // verus!
