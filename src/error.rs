use vstd::prelude::*;

verus! {

/// Everything that layout, batching and atlas packing can refuse.
#[derive(Clone, Copy, Debug, PartialEq, Eq, Structural)]
pub enum LayoutError {
    /// A span whose start lies after its end.
    InvalidSpan,
    /// A grid with zero columns or zero rows.
    DivisionByZero,
    /// No node carries the requested id.
    NodeNotFound,
    /// A node was inserted with an id that the tree already holds.
    DuplicateId,
    /// A child names a parent that declares no grid.
    MissingGridContext,
    /// A child names a parent but gives no placement area.
    MissingArea,
    /// An area string is not a `/`-separated list of the expected number of integers.
    MalformedArea,
    /// A resolved coordinate or size does not fit in 32 bits.
    CoordinateOverflow,
    /// The merged vertices would not be addressable by 16-bit indices.
    BatchOverflow,
    /// The character was not in the set the atlas was built from.
    GlyphNotFound,
    /// The glyph set names a character twice.
    DuplicateGlyph,
    /// The glyphs do not fit on the atlas canvas.
    AtlasOverflow,
    /// No atlas is registered under the requested name.
    FontNotFound,
}

} // verus!
