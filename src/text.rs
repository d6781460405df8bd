use vstd::prelude::*;
use vstd::string::StrSliceExecFns;
use crate::error::LayoutError;
use crate::font::{first_index_of, uv_of, FontBitmap, FontPallet};
use crate::mesh::{rebased, Batch, Color, Mesh, Vertex};
use crate::shape::{is_quad, quad, quad_indices, quad_vertex};
use crate::style::Rect;

verus! {

/// Most letters one text mesh can hold: four vertices each, under 16-bit indices.
pub const MAX_TEXT_LETTERS: usize = 16384;

/// Where the pen would stand for the letter after `placed` before any line break: the
/// box's top-left corner, or right after the previous letter.
pub open spec fn pen_start(area: Rect, line_height: int, placed: Seq<FontBitmap>) -> (int, int)
    decreases placed.len(), 0int,
{
    if placed.len() == 0 {
        (area.x as int, area.y as int)
    } else {
        let p = pen(area, line_height, placed.drop_last());
        (p.0 + placed.last().width, p.1)
    }
}

/// Where the pen stands for the letter after `placed`: at its start, or at the start of
/// the next line once the advance from the box's left edge exceeds the box's width.
pub open spec fn pen(area: Rect, line_height: int, placed: Seq<FontBitmap>) -> (int, int)
    decreases placed.len(), 1int,
{
    let start = pen_start(area, line_height, placed);
    if start.0 - area.x > area.width {
        (area.x as int, start.1 + line_height)
    } else {
        start
    }
}

/// Every character of `chars` has an atlas entry.
pub open spec fn all_found(atlas: FontPallet, chars: Seq<char>) -> bool {
    forall|k: int| 0 <= k < chars.len() ==> first_index_of(atlas.characters@, #[trigger] chars[k]) is Some
}

/// The atlas entry of each character of `chars`.
pub open spec fn glyphs_of(atlas: FontPallet, chars: Seq<char>) -> Seq<FontBitmap> {
    Seq::new(
        chars.len(),
        |k: int| atlas.characters@[first_index_of(atlas.characters@, chars[k])->Some_0],
    )
}

/// Corner `j` of the quad of glyph `g` drawn with the pen at `p`.
pub open spec fn letter_vertex(
    p: (int, int),
    g: FontBitmap,
    color: Color,
    texture_id: i32,
    j: int,
) -> Vertex {
    quad_vertex(
        p.0,
        p.1 + g.offset_y,
        p.0 + g.width,
        p.1 + g.height + g.offset_y,
        color,
        uv_of(g),
        texture_id,
        j,
    )
}

/// The first `4 * k` vertices are the corners of the first `k` letters.
#[verifier::opaque]
pub open spec fn letters_drawn(
    vs: Seq<Vertex>,
    gs: Seq<FontBitmap>,
    k: int,
    area: Rect,
    lh: int,
    color: Color,
    texture_id: i32,
) -> bool {
    forall|i: int|
        0 <= i < 4 * k ==> #[trigger] vs[i] == letter_vertex(
            pen(area, lh, gs.subrange(0, i / 4)),
            gs[i / 4],
            color,
            texture_id,
            i % 4,
        )
}

/// The first `6 * k` indices are the two triangles of each of the first `k` letters.
#[verifier::opaque]
pub open spec fn letters_indexed(idx: Seq<u16>, k: int) -> bool {
    forall|i: int| 0 <= i < 6 * k ==> #[trigger] idx[i] == quad_indices()[i % 6] + 4 * (i / 6)
}

/// Appending letter `k`'s quad keeps every vertex equal to its letter's corner.
proof fn lemma_letter_vertices(
    before: Seq<Vertex>,
    after: Seq<Vertex>,
    letter: Mesh<Vertex>,
    gs: Seq<FontBitmap>,
    k: int,
    area: Rect,
    lh: int,
    color: Color,
    texture_id: i32,
)
    requires
        0 <= k < gs.len(),
        before.len() == 4 * k,
        after == before + letter.vertices@,
        letters_drawn(before, gs, k, area, lh, color, texture_id),
        ({
            let p = pen(area, lh, gs.subrange(0, k));
            let g = gs[k];
            is_quad(
                letter,
                p.0,
                p.1 + g.offset_y,
                p.0 + g.width,
                p.1 + g.height + g.offset_y,
                color,
                uv_of(g),
                texture_id,
            )
        }),
    ensures
        letters_drawn(after, gs, k + 1, area, lh, color, texture_id),
{
    reveal(letters_drawn);
    assert forall|i: int| 0 <= i < 4 * (k + 1) implies #[trigger] after[i] == letter_vertex(
        pen(area, lh, gs.subrange(0, i / 4)),
        gs[i / 4],
        color,
        texture_id,
        i % 4,
    ) by {
        if i >= 4 * k {
            assert(i / 4 == k);
            assert(i % 4 == i - 4 * k);
            assert(after[i] == letter.vertices@[i - 4 * k]);
        } else {
            assert(after[i] == before[i]);
        }
    }
}

/// Appending letter `k`'s indices, moved up by `4 * k`, keeps the index pattern.
proof fn lemma_letter_indices(before: Seq<u16>, after: Seq<u16>, letter: Seq<u16>, k: int)
    requires
        0 <= k < MAX_TEXT_LETTERS,
        before.len() == 6 * k,
        letter == quad_indices(),
        after == before + rebased(letter, 4 * k),
        letters_indexed(before, k),
    ensures
        letters_indexed(after, k + 1),
{
    reveal(letters_indexed);
    assert forall|i: int| 0 <= i < 6 * (k + 1) implies #[trigger] after[i] == quad_indices()[i % 6] + 4
        * (i / 6) by {
        if i >= 6 * k {
            assert(i / 6 == k);
            assert(i % 6 == i - 6 * k);
            assert(after[i] == rebased(letter, 4 * k)[i - 6 * k]);
        } else {
            assert(after[i] == before[i]);
        }
    }
}

/// A run of glyphs laid out left to right in a box, wrapping to new lines.
#[derive(Clone, Debug)]
pub struct Text {
    pub area: Rect,
    pub text: String,
    pub line_height: u32,
    pub texture_index: i32,
    pub color: Color,
    pub mesh: Mesh<Vertex>,
    pub id: Option<String>,
}

impl Text {
    /// The mesh holds one quad per character, in order: letter `k` at the pen after the
    /// first `k` glyphs, showing its glyph's texture rectangle.
    pub open spec fn built_from(&self, atlas: FontPallet) -> bool {
        let gs = glyphs_of(atlas, self.text@);
        let n = gs.len();
        &&& self.mesh.vertices@.len() == 4 * n
        &&& letters_drawn(
            self.mesh.vertices@,
            gs,
            n as int,
            self.area,
            self.line_height as int,
            self.color,
            self.texture_index,
        )
        &&& self.mesh.indices@.len() == 6 * n
        &&& letters_indexed(self.mesh.indices@, n as int)
    }

    /// An unbuilt text: its mesh is empty until `build`. Lines are `line_height` pixels
    /// apart, which must be positive.
    pub fn new(area: Rect, line_height: u32, texture_index: i32, color: Color) -> (r: Text)
        requires
            line_height > 0,
        ensures
            r.area == area,
            r.text@.len() == 0,
            r.line_height == line_height,
            r.texture_index == texture_index,
            r.color == color,
            r.mesh.vertices@.len() == 0,
            r.mesh.indices@.len() == 0,
            r.id is None,
    {
        Text {
            area,
            text: String::new(),
            line_height,
            texture_index,
            color,
            mesh: Mesh { vertices: Vec::new(), indices: Vec::new() },
            id: None,
        }
    }

    /// Replaces the characters to draw.
    pub fn text(&mut self, text: &str)
        ensures
            final(self).text@ == text@,
            final(self).area == old(self).area,
            final(self).line_height == old(self).line_height,
            final(self).texture_index == old(self).texture_index,
            final(self).color == old(self).color,
            final(self).mesh == old(self).mesh,
            final(self).id == old(self).id,
    {
        self.text = text.to_owned();
    }

    /// Rebuilds the cached mesh against `atlas`. Fails, leaving the mesh as it was, with
    /// `BatchOverflow` for more than `MAX_TEXT_LETTERS` characters, or else with
    /// `GlyphNotFound` when a character has no atlas entry.
    #[verifier::rlimit(30)]
    pub fn build(&mut self, atlas: &FontPallet) -> (r: Result<(), LayoutError>)
        requires
            old(self).line_height > 0,
        ensures
            final(self).area == old(self).area,
            final(self).text == old(self).text,
            final(self).line_height == old(self).line_height,
            final(self).texture_index == old(self).texture_index,
            final(self).color == old(self).color,
            final(self).id == old(self).id,
            old(self).text@.len() > MAX_TEXT_LETTERS ==> r == Err::<(), LayoutError>(
                LayoutError::BatchOverflow,
            ),
            old(self).text@.len() <= MAX_TEXT_LETTERS && !all_found(*atlas, old(self).text@) ==> r
                == Err::<(), LayoutError>(LayoutError::GlyphNotFound),
            r is Err ==> final(self).mesh == old(self).mesh,
            r is Ok <==> (old(self).text@.len() <= MAX_TEXT_LETTERS && all_found(
                *atlas,
                old(self).text@,
            )),
            r is Ok ==> final(self).built_from(*atlas) && final(self).mesh.wf(),
    {
        let n = self.text.as_str().unicode_len();
        if n > MAX_TEXT_LETTERS {
            return Err(LayoutError::BatchOverflow);
        }
        let area = self.area;
        let lh = self.line_height;
        let ghost chars = self.text@;
        let ghost gs = glyphs_of(*atlas, chars);
        let mut batch: Batch<Vertex> = Batch::new();
        proof {
            reveal(letters_drawn);
            reveal(letters_indexed);
        }
        let ghost mut placed: Seq<FontBitmap> = Seq::empty();
        let mut sx: i64 = area.x as i64;
        let mut sy: i64 = area.y as i64;
        let mut k: usize = 0;
        while k < n
            invariant
                n == chars.len(),
                n <= MAX_TEXT_LETTERS,
                chars == self.text@,
                area == self.area,
                lh == self.line_height,
                gs == glyphs_of(*atlas, chars),
                k <= n,
                forall|i: int| 0 <= i < k ==> first_index_of(atlas.characters@, #[trigger] chars[i]) is Some,
                placed == gs.subrange(0, k as int),
                (sx as int, sy as int) == pen_start(area, lh as int, placed),
                area.x <= sx <= area.x + area.width + u32::MAX,
                area.y <= sy <= area.y + k * lh,
                batch.wf(),
                batch.vertices@.len() == 4 * k,
                batch.indices@.len() == 6 * k,
                letters_drawn(batch.vertices@, gs, k as int, area, lh as int, self.color, self.texture_index),
                letters_indexed(batch.indices@, k as int),
            decreases n - k,
        {
            let c = self.text.as_str().get_char(k);
            let g = match atlas.get(c) {
                Ok(g) => g,
                Err(e) => {
                    assert(!all_found(*atlas, chars));
                    return Err(e);
                },
            };
            proof {
                assert(first_index_of(atlas.characters@, chars[k as int]) is Some);
                assert(*g == gs[k as int]);
                assert(placed.push(*g).drop_last() =~= placed);
                assert(gs.subrange(0, k + 1) =~= placed.push(*g));
            }
            assert((k as int) * (lh as int) <= (MAX_TEXT_LETTERS as int) * (u32::MAX as int))
                by (nonlinear_arith)
                requires
                    k <= MAX_TEXT_LETTERS,
                    lh <= u32::MAX,
            ;
            assert((k as int + 1) * (lh as int) == (k as int) * (lh as int) + lh) by (nonlinear_arith);
            let (px, py): (i64, i64) = if sx - area.x as i64 > area.width as i64 {
                (area.x as i64, sy + lh as i64)
            } else {
                (sx, sy)
            };
            assert((px as int, py as int) == pen(area, lh as int, placed));
            let letter = quad(
                px,
                py + g.offset_y as i64,
                px + g.width as i64,
                py + g.height as i64 + g.offset_y as i64,
                self.color,
                g.get_uv_position(),
                self.texture_index,
            );
            let ghost before_v = batch.vertices@;
            let ghost before_i = batch.indices@;
            batch.add(&letter);
            proof {
                lemma_letter_vertices(
                    before_v,
                    batch.vertices@,
                    letter,
                    gs,
                    k as int,
                    area,
                    lh as int,
                    self.color,
                    self.texture_index,
                );
                lemma_letter_indices(before_i, batch.indices@, letter.indices@, k as int);
                let next = placed.push(*g);
                assert(next.drop_last() == placed);
                assert(pen_start(area, lh as int, next) == (px + g.width, py as int));
                placed = next;
            }
            sx = px + g.width as i64;
            sy = py;
            k = k + 1;
        }
        assert(gs.subrange(0, n as int) =~= gs);
        self.mesh = Mesh { vertices: batch.vertices, indices: batch.indices };
        Ok(())
    }
}

} // verus!
