use vstd::prelude::*;
use crate::error::LayoutError;
use crate::mesh::copy_vec;

verus! {

/// One character as a rasteriser drew it: its bitmap and the bitmap's size in pixels.
#[derive(Clone, Debug)]
pub struct RasterGlyph {
    pub character: char,
    pub width: u32,
    pub height: u32,
    pub bitmap: Vec<u8>,
}

/// A glyph placed on the atlas canvas, with the offsets that align it against the
/// widest and tallest glyph of its set.
#[derive(Clone, Debug)]
pub struct FontBitmap {
    pub character: char,
    pub data: Vec<u8>,
    pub x: u32,
    pub y: u32,
    pub width: u32,
    pub height: u32,
    pub offset_x: u32,
    pub offset_y: u32,
    pub font_size: u32,
    pub max_width: u32,
    pub max_height: u32,
}

/// A texture rectangle: `u0 / u_scale .. u1 / u_scale` across and
/// `v0 / v_scale .. v1 / v_scale` down, each in `[0, 1]`.
#[derive(Clone, Copy, Debug, PartialEq, Eq, Structural)]
pub struct UvPosition {
    pub u0: u64,
    pub u1: u64,
    pub v0: u64,
    pub v1: u64,
    pub u_scale: u64,
    pub v_scale: u64,
}

/// A glyph atlas: a square canvas and the glyphs packed on it, in packing order.
#[derive(Clone, Debug)]
pub struct FontPallet {
    pub max_w: u32,
    pub max_h: u32,
    pub characters: Vec<FontBitmap>,
}

/// A rectangle on the atlas canvas.
pub struct Slot {
    pub x: int,
    pub y: int,
    pub width: int,
    pub height: int,
}

/// The width a glyph takes on its shelf: a space advances by a third of the font size.
pub open spec fn advance_width(g: RasterGlyph, size: int) -> int {
    if g.character == ' ' {
        size / 3
    } else {
        g.width as int
    }
}

/// The height a glyph takes on the canvas: a space draws nothing.
pub open spec fn drawn_height(g: RasterGlyph) -> int {
    if g.character == ' ' {
        0
    } else {
        g.height as int
    }
}

/// Tallest bitmap of a glyph set.
pub open spec fn max_height_of(gs: Seq<RasterGlyph>) -> int
    decreases gs.len(),
{
    if gs.len() == 0 {
        0
    } else {
        let m = max_height_of(gs.drop_last());
        if gs.last().height as int > m {
            gs.last().height as int
        } else {
            m
        }
    }
}

/// Widest bitmap of a glyph set.
pub open spec fn max_width_of(gs: Seq<RasterGlyph>) -> int
    decreases gs.len(),
{
    if gs.len() == 0 {
        0
    } else {
        let m = max_width_of(gs.drop_last());
        if gs.last().width as int > m {
            gs.last().width as int
        } else {
            m
        }
    }
}

/// Shelf packing of `gs` on a `canvas`-sided square: the slots in order and the cursor
/// after the last one, or `None` when a glyph does not fit.
///
/// A glyph that would reach the right edge starts a new shelf `row_height + size` lower;
/// after each glyph the cursor moves right by its width plus `size` of padding.
pub open spec fn packed(gs: Seq<RasterGlyph>, size: int, row_height: int, canvas: int) -> Option<
    (Seq<Slot>, int, int),
>
    decreases gs.len(),
{
    if gs.len() == 0 {
        Some((Seq::empty(), 0, 0))
    } else {
        match packed(gs.drop_last(), size, row_height, canvas) {
            None => None,
            Some((slots, x, y)) => {
                let g = gs.last();
                let w = advance_width(g, size);
                let wraps = x + w >= canvas;
                let px = if wraps {
                    0
                } else {
                    x
                };
                let py = if wraps {
                    y + row_height + size
                } else {
                    y
                };
                if px + w >= canvas || py + row_height > canvas {
                    None
                } else {
                    Some(
                        (
                            slots.push(Slot { x: px, y: py, width: w, height: drawn_height(g) }),
                            px + w + size,
                            py,
                        ),
                    )
                }
            },
        }
    }
}

/// The atlas canvas side for a font size: `size * size`.
pub open spec fn canvas_side(size: int) -> int {
    size * size
}

/// The atlas entry built for glyph `g` placed in slot `s`.
pub open spec fn placed_as(
    b: FontBitmap,
    g: RasterGlyph,
    s: Slot,
    size: int,
    max_width: int,
    row_height: int,
) -> bool {
    &&& b.character == g.character
    &&& b.data@ == (if g.character == ' ' {
        Seq::<u8>::empty()
    } else {
        g.bitmap@
    })
    &&& b.x == s.x
    &&& b.y == s.y
    &&& b.width == s.width
    &&& b.height == s.height
    &&& b.offset_x == max_width - g.width
    &&& b.offset_y == row_height - g.height
    &&& b.font_size == size
    &&& b.max_width == canvas_side(size)
    &&& b.max_height == canvas_side(size)
}

/// What building an atlas from `gs` at `size` yields: `None` when the glyphs do not fit
/// on the canvas, or the canvas side does not fit in 32 bits.
pub open spec fn atlas_fits(gs: Seq<RasterGlyph>, size: int) -> bool {
    canvas_side(size) <= u32::MAX && packed(gs, size, max_height_of(gs), canvas_side(size)) is Some
}

/// No character appears twice in the glyph set.
pub open spec fn distinct_chars(gs: Seq<RasterGlyph>) -> bool {
    forall|i: int, j: int|
        0 <= i < j < gs.len() ==> (#[trigger] gs[i]).character != (#[trigger] gs[j]).character
}

impl FontPallet {
    /// The atlas has one entry per character.
    pub open spec fn one_per_character(&self) -> bool {
        forall|i: int, j: int|
            0 <= i < j < self.characters@.len() ==> (#[trigger] self.characters@[i]).character != (
            #[trigger] self.characters@[j]).character
    }

    /// The atlas holds exactly the glyphs of `gs`, packed in order at `size`.
    pub open spec fn packs(&self, gs: Seq<RasterGlyph>, size: int) -> bool {
        let row_height = max_height_of(gs);
        let slots = packed(gs, size, row_height, canvas_side(size))->Some_0.0;
        &&& self.max_w == canvas_side(size)
        &&& self.max_h == canvas_side(size)
        &&& self.characters@.len() == gs.len()
        &&& forall|k: int|
            0 <= k < gs.len() ==> placed_as(
                #[trigger] self.characters@[k],
                gs[k],
                slots[k],
                size,
                max_width_of(gs),
                row_height,
            )
    }
}

/// Every glyph's bitmap is at most as tall and as wide as the set's maxima.
proof fn lemma_max_bounds(gs: Seq<RasterGlyph>)
    ensures
        0 <= max_height_of(gs) <= u32::MAX,
        0 <= max_width_of(gs) <= u32::MAX,
        forall|k: int| 0 <= k < gs.len() ==> (#[trigger] gs[k]).height <= max_height_of(gs),
        forall|k: int| 0 <= k < gs.len() ==> (#[trigger] gs[k]).width <= max_width_of(gs),
    decreases gs.len(),
{
    if gs.len() > 0 {
        lemma_max_bounds(gs.drop_last());
        assert forall|k: int| 0 <= k < gs.len() implies (#[trigger] gs[k]).height <= max_height_of(
            gs,
        ) && gs[k].width <= max_width_of(gs) by {
            if k < gs.len() - 1 {
                assert(gs[k] == gs.drop_last()[k]);
            }
        }
    }
}

/// Once a prefix of a glyph set does not fit, the whole set does not fit.
proof fn lemma_packed_none_extends(
    gs: Seq<RasterGlyph>,
    n: int,
    size: int,
    row_height: int,
    canvas: int,
)
    requires
        0 <= n <= gs.len(),
        packed(gs.subrange(0, n), size, row_height, canvas) is None,
    ensures
        packed(gs, size, row_height, canvas) is None,
    decreases gs.len(),
{
    if gs.len() == n {
        assert(gs.subrange(0, n) =~= gs);
    } else {
        assert(gs.drop_last().subrange(0, n) =~= gs.subrange(0, n));
        lemma_packed_none_extends(gs.drop_last(), n, size, row_height, canvas);
    }
}

impl FontPallet {
    /// The tallest and the widest bitmap of a glyph set, in that order.
    pub fn character_offsets(glyphs: &Vec<RasterGlyph>) -> (r: (u32, u32))
        ensures
            r.0 == max_height_of(glyphs@),
            r.1 == max_width_of(glyphs@),
    {
        let mut max_height: u32 = 0;
        let mut max_width: u32 = 0;
        let mut i: usize = 0;
        while i < glyphs.len()
            invariant
                i <= glyphs@.len(),
                max_height == max_height_of(glyphs@.subrange(0, i as int)),
                max_width == max_width_of(glyphs@.subrange(0, i as int)),
            decreases glyphs@.len() - i,
        {
            let g = &glyphs[i];
            assert(glyphs@.subrange(0, i + 1).drop_last() =~= glyphs@.subrange(0, i as int));
            if g.height > max_height {
                max_height = g.height;
            }
            if g.width > max_width {
                max_width = g.width;
            }
            i = i + 1;
        }
        assert(glyphs@.subrange(0, i as int) =~= glyphs@);
        (max_height, max_width)
    }

    /// Whether some character appears twice in `glyphs`.
    fn has_duplicate(glyphs: &Vec<RasterGlyph>) -> (r: bool)
        ensures
            r == !distinct_chars(glyphs@),
    {
        let mut i: usize = 0;
        while i < glyphs.len()
            invariant
                i <= glyphs@.len(),
                forall|a: int, b: int|
                    0 <= a < i && a < b < glyphs@.len() ==> (#[trigger] glyphs@[a]).character != (
                    #[trigger] glyphs@[b]).character,
            decreases glyphs@.len() - i,
        {
            let mut j: usize = i + 1;
            while j < glyphs.len()
                invariant
                    i < glyphs@.len(),
                    i + 1 <= j <= glyphs@.len(),
                    forall|b: int| i < b < j ==> glyphs@[i as int].character != (
                    #[trigger] glyphs@[b]).character,
                decreases glyphs@.len() - j,
            {
                if glyphs[i].character == glyphs[j].character {
                    return true;
                }
                j = j + 1;
            }
            i = i + 1;
        }
        false
    }

    /// Packs rasterised glyphs, in order, on a canvas of `size * size` pixels.
    ///
    /// Shelves are as tall as the tallest glyph, and glyphs and shelves are `size` pixels
    /// apart. A space takes a third of `size` across and keeps no bitmap. Fails with
    /// `DuplicateGlyph` when a character appears twice, and otherwise with
    /// `AtlasOverflow` when the glyphs do not fit or the canvas side exceeds 32 bits.
    pub fn cache(glyphs: &Vec<RasterGlyph>, size: u32) -> (r: Result<FontPallet, LayoutError>)
        ensures
            match r {
                Ok(atlas) => distinct_chars(glyphs@) && atlas_fits(glyphs@, size as int)
                    && atlas.packs(glyphs@, size as int) && atlas.one_per_character(),
                Err(e) => (!distinct_chars(glyphs@) && e == LayoutError::DuplicateGlyph) || (
                distinct_chars(glyphs@) && !atlas_fits(glyphs@, size as int) && e
                    == LayoutError::AtlasOverflow),
            },
    {
        if FontPallet::has_duplicate(glyphs) {
            return Err(LayoutError::DuplicateGlyph);
        }
        assert((size as int) * (size as int) <= u64::MAX) by (nonlinear_arith)
            requires
                size <= u32::MAX,
        ;
        let side = size as u64 * size as u64;
        if side > u32::MAX as u64 {
            return Err(LayoutError::AtlasOverflow);
        }
        let canvas = side as u32;
        let (row_height, max_width) = FontPallet::character_offsets(glyphs);
        let ghost gs = glyphs@;
        let ghost cv = canvas as int;
        proof {
            lemma_max_bounds(gs);
        }
        let mut characters: Vec<FontBitmap> = Vec::new();
        let mut x: u64 = 0;
        let mut y: u64 = 0;
        let ghost mut slots: Seq<Slot> = Seq::empty();
        let mut i: usize = 0;
        while i < glyphs.len()
            invariant
                gs == glyphs@,
                distinct_chars(gs),
                cv == canvas as int,
                cv == canvas_side(size as int),
                row_height == max_height_of(gs),
                max_width == max_width_of(gs),
                0 <= max_height_of(gs) <= u32::MAX,
                0 <= max_width_of(gs) <= u32::MAX,
                forall|k: int| 0 <= k < gs.len() ==> (#[trigger] gs[k]).height <= max_height_of(gs),
                forall|k: int| 0 <= k < gs.len() ==> (#[trigger] gs[k]).width <= max_width_of(gs),
                i <= gs.len(),
                packed(gs.subrange(0, i as int), size as int, row_height as int, cv) == Some(
                    (slots, x as int, y as int),
                ),
                x <= cv + size,
                y <= cv,
                characters@.len() == i,
                slots.len() == i,
                forall|k: int|
                    0 <= k < i ==> placed_as(
                        #[trigger] characters@[k],
                        gs[k],
                        slots[k],
                        size as int,
                        max_width as int,
                        row_height as int,
                    ),
            decreases gs.len() - i,
        {
            let g = &glyphs[i];
            assert(gs.subrange(0, i + 1).drop_last() =~= gs.subrange(0, i as int));
            assert(gs.subrange(0, i + 1).last() == gs[i as int]);
            let is_space = g.character == ' ';
            let w: u32 = if is_space {
                size / 3
            } else {
                g.width
            };
            let h: u32 = if is_space {
                0
            } else {
                g.height
            };
            let mut px = x;
            let mut py = y;
            if x + w as u64 >= canvas as u64 {
                px = 0;
                py = y + row_height as u64 + size as u64;
            }
            if px + w as u64 >= canvas as u64 || py + row_height as u64 > canvas as u64 {
                proof {
                    lemma_packed_none_extends(gs, i + 1, size as int, row_height as int, cv);
                }
                return Err(LayoutError::AtlasOverflow);
            }
            let data: Vec<u8> = if is_space {
                Vec::new()
            } else {
                copy_vec(&g.bitmap)
            };
            let bitmap = FontBitmap {
                character: g.character,
                data,
                x: px as u32,
                y: py as u32,
                width: w,
                height: h,
                offset_x: max_width - g.width,
                offset_y: row_height - g.height,
                font_size: size,
                max_width: canvas,
                max_height: canvas,
            };
            characters.push(bitmap);
            proof {
                slots = slots.push(Slot { x: px as int, y: py as int, width: w as int, height: h as int });
            }
            x = px + w as u64 + size as u64;
            y = py;
            i = i + 1;
        }
        assert(gs.subrange(0, i as int) =~= gs);
        let atlas = FontPallet { max_w: canvas, max_h: canvas, characters };
        assert(atlas.one_per_character()) by {
            assert forall|a: int, b: int| 0 <= a < b < atlas.characters@.len() implies (
            #[trigger] atlas.characters@[a]).character != (#[trigger] atlas.characters@[b]).character by {
                assert(gs[a].character != gs[b].character);
            }
        }
        Ok(atlas)
    }
}

/// Two slots do not overlap, each taken as tall as its whole shelf.
pub open spec fn apart(a: Slot, b: Slot, row_height: int) -> bool {
    a.x + a.width <= b.x || b.x + b.width <= a.x || a.y + row_height <= b.y || b.y + row_height <= a.y
}

/// Each slot lies on the canvas, and its shelf too.
pub open spec fn on_canvas(s: Slot, row_height: int, canvas: int) -> bool {
    &&& 0 <= s.x
    &&& 0 <= s.width
    &&& s.x + s.width < canvas
    &&& 0 <= s.y
    &&& 0 <= s.height <= row_height
    &&& s.y + row_height <= canvas
}

proof fn lemma_packed_layout(gs: Seq<RasterGlyph>, size: int, row_height: int, canvas: int)
    requires
        size > 0,
        row_height >= 0,
        forall|k: int| 0 <= k < gs.len() ==> (#[trigger] gs[k]).height <= row_height,
    ensures
        packed(gs, size, row_height, canvas) matches Some((slots, x, y)) ==> {
            &&& slots.len() == gs.len()
            &&& 0 <= x
            &&& 0 <= y
            &&& forall|k: int| 0 <= k < slots.len() ==> on_canvas(#[trigger] slots[k], row_height, canvas)
            &&& forall|k: int|
                0 <= k < slots.len() ==> {
                    &&& (#[trigger] slots[k]).y <= y
                    &&& slots[k].y == y ==> slots[k].x + slots[k].width + size <= x
                    &&& slots[k].y < y ==> slots[k].y + row_height + size <= y
                }
            &&& forall|i: int, j: int|
                0 <= i < j < slots.len() ==> apart(#[trigger] slots[i], #[trigger] slots[j], row_height)
        },
    decreases gs.len(),
{
    if gs.len() > 0 {
        let prefix = gs.drop_last();
        assert forall|k: int| 0 <= k < prefix.len() implies (#[trigger] prefix[k]).height
            <= row_height by {
            assert(prefix[k] == gs[k]);
        }
        lemma_packed_layout(prefix, size, row_height, canvas);
        assert(gs.last() == gs[gs.len() - 1]);
        if let Some((slots, x, y)) = packed(prefix, size, row_height, canvas) {
            if let Some((all, nx, ny)) = packed(gs, size, row_height, canvas) {
                let n = slots.len() as int;
                let s = all[n];
                let g = gs.last();
                let w = advance_width(g, size);
                let wraps = x + w >= canvas;
                let px = if wraps { 0 } else { x };
                let py = if wraps { y + row_height + size } else { y };
                assert(w >= 0);
                assert(all == slots.push(Slot { x: px, y: py, width: w, height: drawn_height(g) }));
                assert(nx == px + w + size && ny == py);
                assert(s.x == px && s.y == py && s.width == w && s.height == drawn_height(g));
                assert(drawn_height(g) <= g.height <= row_height);
                assert forall|k: int| 0 <= k < n implies apart(#[trigger] all[k], all[n], row_height) by {
                    assert(all[k] == slots[k]);
                }
                assert forall|i: int, j: int| 0 <= i < j < all.len() implies apart(
                    #[trigger] all[i],
                    #[trigger] all[j],
                    row_height,
                ) by {
                    if j < n {
                        assert(all[i] == slots[i] && all[j] == slots[j]);
                    }
                }
                assert forall|k: int| 0 <= k < all.len() implies on_canvas(
                    #[trigger] all[k],
                    row_height,
                    canvas,
                ) by {
                    if k < n {
                        assert(all[k] == slots[k]);
                        assert(on_canvas(slots[k], row_height, canvas));
                    } else {
                        assert(px + w < canvas);
                        assert(py + row_height <= canvas);
                        assert(0 <= px && 0 <= py);
                    }
                }
                assert forall|k: int| 0 <= k < all.len() implies {
                    &&& (#[trigger] all[k]).y <= ny
                    &&& all[k].y == ny ==> all[k].x + all[k].width + size <= nx
                    &&& all[k].y < ny ==> all[k].y + row_height + size <= ny
                } by {
                    if k < n {
                        assert(all[k] == slots[k]);
                        assert(slots[k].y <= y);
                        assert(slots[k].y == y ==> slots[k].x + slots[k].width + size <= x);
                        assert(slots[k].y < y ==> slots[k].y + row_height + size <= y);
                        if wraps {
                            assert(slots[k].y + row_height + size <= ny);
                        } else {
                            assert(ny == y && nx >= x);
                        }
                    } else {
                        assert(all[k] == s);
                    }
                }
            }
        }
    }
}

/// Every glyph of a built atlas lies inside the canvas, and no two glyphs overlap, even
/// when each is taken to fill the whole height of its shelf.
pub proof fn packed_glyphs_apart(atlas: FontPallet, gs: Seq<RasterGlyph>, size: int)
    requires
        size >= 0,
        atlas_fits(gs, size),
        atlas.packs(gs, size),
    ensures
        forall|k: int|
            0 <= k < atlas.characters@.len() ==> {
                &&& (#[trigger] atlas.characters@[k]).x + atlas.characters@[k].width
                    < atlas.max_w
                &&& atlas.characters@[k].y + atlas.characters@[k].height <= atlas.max_h
            },
        forall|i: int, j: int|
            0 <= i < j < atlas.characters@.len() ==> {
                let a = #[trigger] atlas.characters@[i];
                let b = #[trigger] atlas.characters@[j];
                let rh = max_height_of(gs);
                a.x + a.width <= b.x || b.x + b.width <= a.x || a.y + rh <= b.y || b.y + rh <= a.y
            },
{
    let rh = max_height_of(gs);
    let canvas = canvas_side(size);
    lemma_max_bounds(gs);
    if size == 0 {
        assert(canvas == 0) by (nonlinear_arith)
            requires
                size == 0,
                canvas == size * size,
        ;
        if gs.len() > 0 {
            let one = gs.subrange(0, 1);
            assert(one.drop_last() =~= Seq::<RasterGlyph>::empty());
            assert(packed(one.drop_last(), size, rh, canvas) == Some(
                (Seq::<Slot>::empty(), 0int, 0int),
            ));
            assert(advance_width(one.last(), size) >= 0);
            assert(packed(one, size, rh, canvas) is None);
            lemma_packed_none_extends(gs, 1, size, rh, canvas);
        }
        return;
    }
    lemma_packed_layout(gs, size, rh, canvas);
    let slots = packed(gs, size, rh, canvas)->Some_0.0;
    assert forall|k: int| 0 <= k < atlas.characters@.len() implies {
        &&& (#[trigger] atlas.characters@[k]).x + atlas.characters@[k].width < atlas.max_w
        &&& atlas.characters@[k].y + atlas.characters@[k].height <= atlas.max_h
    } by {
        assert(on_canvas(slots[k], rh, canvas));
    }
    assert forall|i: int, j: int| 0 <= i < j < atlas.characters@.len() implies {
        let a = #[trigger] atlas.characters@[i];
        let b = #[trigger] atlas.characters@[j];
        a.x + a.width <= b.x || b.x + b.width <= a.x || a.y + rh <= b.y || b.y + rh <= a.y
    } by {
        assert(apart(slots[i], slots[j], rh));
        assert(placed_as(atlas.characters@[i], gs[i], slots[i], size, max_width_of(gs), rh));
        assert(placed_as(atlas.characters@[j], gs[j], slots[j], size, max_width_of(gs), rh));
    }
}

/// The texture rectangle of a placed glyph, grown by `font_size / 100` pixels on every
/// side and clamped to the canvas. Coordinates are in hundredths of a pixel, so the
/// scales are a hundred times the canvas sides.
pub open spec fn uv_of(b: FontBitmap) -> UvPosition {
    let pad = b.font_size as int;
    let u_scale = 100 * b.max_width as int;
    let v_scale = 100 * b.max_height as int;
    let u0 = 100 * b.x as int - pad;
    let u1 = 100 * (b.x + b.width) + pad;
    let v0 = 100 * b.y as int - pad;
    let v1 = 100 * (b.y + b.height) + pad;
    UvPosition {
        u0: (if u0 < 0 { 0 } else { u0 }) as u64,
        u1: (if u1 > u_scale { u_scale } else { u1 }) as u64,
        v0: (if v0 < 0 { 0 } else { v0 }) as u64,
        v1: (if v1 > v_scale { v_scale } else { v1 }) as u64,
        u_scale: u_scale as u64,
        v_scale: v_scale as u64,
    }
}

/// Index of the first entry of `cs` for character `ch`, if any.
pub open spec fn first_index_of(cs: Seq<FontBitmap>, ch: char) -> Option<int> {
    if exists|k: int| 0 <= k < cs.len() && (#[trigger] cs[k]).character == ch {
        Some(
            choose|k: int|
                0 <= k < cs.len() && (#[trigger] cs[k]).character == ch && forall|j: int|
                    0 <= j < k ==> (#[trigger] cs[j]).character != ch,
        )
    } else {
        None
    }
}

impl FontBitmap {
    /// The glyph's texture rectangle on the atlas, padded and clamped to `[0, 1]`.
    pub fn get_uv_position(&self) -> (r: UvPosition)
        ensures
            r == uv_of(*self),
    {
        let pad = self.font_size as u64;
        let u_scale = 100 * self.max_width as u64;
        let v_scale = 100 * self.max_height as u64;
        let left = 100 * self.x as u64;
        let right = 100 * (self.x as u64 + self.width as u64) + pad;
        let top = 100 * self.y as u64;
        let bottom = 100 * (self.y as u64 + self.height as u64) + pad;
        UvPosition {
            u0: if left < pad { 0 } else { left - pad },
            u1: if right > u_scale { u_scale } else { right },
            v0: if top < pad { 0 } else { top - pad },
            v1: if bottom > v_scale { v_scale } else { bottom },
            u_scale,
            v_scale,
        }
    }
}

impl FontPallet {
    /// The atlas entry for `ch`: the first one packed for it. Fails with `GlyphNotFound`
    /// when `ch` was not in the set the atlas was built from.
    pub fn get(&self, ch: char) -> (r: Result<&FontBitmap, LayoutError>)
        ensures
            match first_index_of(self.characters@, ch) {
                Some(k) => r == Ok::<&FontBitmap, LayoutError>(&self.characters@[k]),
                None => r == Err::<&FontBitmap, LayoutError>(LayoutError::GlyphNotFound),
            },
    {
        let mut i: usize = 0;
        while i < self.characters.len()
            invariant
                i <= self.characters@.len(),
                forall|j: int| 0 <= j < i ==> (#[trigger] self.characters@[j]).character != ch,
            decreases self.characters@.len() - i,
        {
            if self.characters[i].character == ch {
                let ghost k = first_index_of(self.characters@, ch)->Some_0;
                assert(first_index_of(self.characters@, ch) is Some);
                assert(k == i) by {
                    if k < i {
                        assert(self.characters@[k].character != ch);
                    } else if k > i {
                        assert(self.characters@[i as int].character == ch);
                    }
                }
                return Ok(&self.characters[i]);
            }
            i = i + 1;
        }
        Err(LayoutError::GlyphNotFound)
    }
}

/// Every glyph of an atlas built at a positive size has a texture rectangle that is not
/// empty across or down and lies within `[0, 1]` on both axes, padding included.
pub proof fn atlas_uvs_in_unit_square(atlas: FontPallet, gs: Seq<RasterGlyph>, size: int)
    requires
        size > 0,
        atlas_fits(gs, size),
        atlas.packs(gs, size),
    ensures
        forall|k: int|
            0 <= k < atlas.characters@.len() ==> {
                let uv = uv_of(#[trigger] atlas.characters@[k]);
                &&& uv.u0 < uv.u1 <= uv.u_scale
                &&& uv.v0 < uv.v1 <= uv.v_scale
            },
{
    packed_glyphs_apart(atlas, gs, size);
    lemma_max_bounds(gs);
    let rh = max_height_of(gs);
    let canvas = canvas_side(size);
    lemma_packed_layout(gs, size, rh, canvas);
    let slots = packed(gs, size, rh, canvas)->Some_0.0;
    assert forall|k: int| 0 <= k < atlas.characters@.len() implies {
        let uv = uv_of(#[trigger] atlas.characters@[k]);
        &&& uv.u0 < uv.u1 <= uv.u_scale
        &&& uv.v0 < uv.v1 <= uv.v_scale
    } by {
        let b = atlas.characters@[k];
        assert(on_canvas(slots[k], rh, canvas));
        assert(placed_as(b, gs[k], slots[k], size, max_width_of(gs), rh));
        assert(b.y + rh <= b.max_height);
    }
}

/// Index of the atlas registered under `name`, if any (names are unique).
pub open spec fn font_index(fonts: Seq<(String, FontPallet)>, name: Seq<char>) -> Option<int> {
    if exists|i: int| 0 <= i < fonts.len() && (#[trigger] fonts[i]).0@ == name {
        Some(choose|i: int| 0 <= i < fonts.len() && (#[trigger] fonts[i]).0@ == name)
    } else {
        None
    }
}

/// No two entries share a name.
pub open spec fn names_unique(fonts: Seq<(String, FontPallet)>) -> bool {
    forall|i: int, j: int|
        0 <= i < fonts.len() && 0 <= j < fonts.len() && i != j ==> (#[trigger] fonts[i]).0@ != (
        #[trigger] fonts[j]).0@
}

/// The atlas registered under `name` in `fonts`.
pub open spec fn font_lookup(fonts: Seq<(String, FontPallet)>, name: Seq<char>) -> Option<
    FontPallet,
> {
    match font_index(fonts, name) {
        Some(i) => Some(fonts[i].1),
        None => None,
    }
}

fn font_position(fonts: &Vec<(String, FontPallet)>, name: &String) -> (r: Option<usize>)
    requires
        names_unique(fonts@),
    ensures
        match r {
            Some(i) => font_index(fonts@, name@) == Some(i as int) && i < fonts@.len(),
            None => font_index(fonts@, name@) is None,
        },
{
    let mut i: usize = 0;
    while i < fonts.len()
        invariant
            i <= fonts@.len(),
            names_unique(fonts@),
            forall|j: int| 0 <= j < i ==> (#[trigger] fonts@[j]).0@ != name@,
        decreases fonts@.len() - i,
    {
        if fonts[i].0 == *name {
            assert(fonts@[i as int].0@ == name@);
            assert(font_index(fonts@, name@) is Some);
            let ghost k = font_index(fonts@, name@)->Some_0;
            assert(k == i) by {
                if k != i {
                    assert(fonts@[k].0@ == name@);
                }
            }
            return Some(i);
        }
        i = i + 1;
    }
    None
}

/// Registering `atlas` under `name` in `fonts`, replacing any entry of that name.
fn register(fonts: &mut Vec<(String, FontPallet)>, name: String, atlas: FontPallet)
    requires
        names_unique(old(fonts)@),
    ensures
        names_unique(final(fonts)@),
        font_lookup(final(fonts)@, name@) == Some(atlas),
        forall|other: Seq<char>|
            other != name@ ==> #[trigger] font_lookup(final(fonts)@, other) == font_lookup(
                old(fonts)@,
                other,
            ),
{
    let ghost old_fonts = fonts@;
    let ghost key = name@;
    match font_position(fonts, &name) {
        Some(i) => {
            fonts.set(i, (name, atlas));
            proof {
                assert forall|a: int, b: int|
                    0 <= a < fonts@.len() && 0 <= b < fonts@.len() && a != b implies (
                #[trigger] fonts@[a]).0@ != (#[trigger] fonts@[b]).0@ by {
                    assert(old_fonts[a].0@ != old_fonts[b].0@);
                    assert(old_fonts[i as int].0@ == key);
                }
                assert(font_index(fonts@, key) == Some(i as int)) by {
                    assert(fonts@[i as int].0@ == key);
                    assert(font_index(fonts@, key) is Some);
                    let k = font_index(fonts@, key)->Some_0;
                    if k != i {
                        assert(fonts@[k].0@ == key);
                    }
                }
                assert forall|other: Seq<char>| other != key implies #[trigger] font_lookup(
                    fonts@,
                    other,
                ) == font_lookup(old_fonts, other) by {
                    if font_index(old_fonts, other) is Some {
                        let k = font_index(old_fonts, other)->Some_0;
                        assert(fonts@[k] == old_fonts[k]);
                        assert(font_index(fonts@, other) is Some);
                        let k2 = font_index(fonts@, other)->Some_0;
                        if k2 != k {
                            assert(fonts@[k2] == old_fonts[k2]);
                        }
                    } else if font_index(fonts@, other) is Some {
                        let k2 = font_index(fonts@, other)->Some_0;
                        assert(fonts@[k2] == old_fonts[k2]);
                    }
                }
            }
        },
        None => {
            fonts.push((name, atlas));
            proof {
                let n = old_fonts.len() as int;
                assert forall|a: int, b: int|
                    0 <= a < fonts@.len() && 0 <= b < fonts@.len() && a != b implies (
                #[trigger] fonts@[a]).0@ != (#[trigger] fonts@[b]).0@ by {
                    if a < n && b < n {
                        assert(fonts@[a] == old_fonts[a] && fonts@[b] == old_fonts[b]);
                    } else if a < n {
                        assert(fonts@[a] == old_fonts[a]);
                    } else {
                        assert(fonts@[b] == old_fonts[b]);
                    }
                }
                assert(font_index(fonts@, key) == Some(n)) by {
                    assert(fonts@[n].0@ == key);
                    assert(font_index(fonts@, key) is Some);
                    let k = font_index(fonts@, key)->Some_0;
                    if k != n {
                        assert(fonts@[k] == old_fonts[k]);
                    }
                }
                assert forall|other: Seq<char>| other != key implies #[trigger] font_lookup(
                    fonts@,
                    other,
                ) == font_lookup(old_fonts, other) by {
                    if font_index(old_fonts, other) is Some {
                        let k = font_index(old_fonts, other)->Some_0;
                        assert(fonts@[k] == old_fonts[k]);
                        assert(font_index(fonts@, other) is Some);
                        let k2 = font_index(fonts@, other)->Some_0;
                        if k2 != k {
                            assert(fonts@[k2] == old_fonts[k2]);
                        }
                    } else if font_index(fonts@, other) is Some {
                        let k2 = font_index(fonts@, other)->Some_0;
                        assert(fonts@[k2] == old_fonts[k2]);
                    }
                }
            }
        },
    }
}

/// Atlases by name, each built once and shared by whatever draws text with it. Names are
/// unique: registering a name again replaces its atlas.
#[derive(Debug)]
pub struct FontRegistry {
    fonts: Vec<(String, FontPallet)>,
}

impl FontRegistry {
    #[verifier::type_invariant]
    spec fn inv(&self) -> bool {
        names_unique(self.fonts@)
    }

    /// The atlas registered under `name`.
    pub closed spec fn lookup(&self, name: Seq<char>) -> Option<FontPallet> {
        font_lookup(self.fonts@, name)
    }

    /// An empty registry.
    pub fn new() -> (r: FontRegistry)
        ensures
            forall|name: Seq<char>| #[trigger] r.lookup(name) is None,
    {
        FontRegistry { fonts: Vec::new() }
    }

    /// Registers `atlas` under `name`, replacing any atlas already registered there.
    pub fn create_font(&mut self, name: String, atlas: FontPallet)
        ensures
            final(self).lookup(name@) == Some(atlas),
            forall|other: Seq<char>| other != name@ ==> #[trigger] final(self).lookup(other) == old(
                self,
            ).lookup(other),
    {
        proof {
            use_type_invariant(&*self);
        }
        let mut fonts: Vec<(String, FontPallet)> = Vec::new();
        std::mem::swap(&mut fonts, &mut self.fonts);
        register(&mut fonts, name, atlas);
        self.fonts = fonts;
    }

    /// The atlas registered under `name`. Fails with `FontNotFound` when there is none.
    pub fn get_font(&self, name: &String) -> (r: Result<&FontPallet, LayoutError>)
        ensures
            match self.lookup(name@) {
                Some(a) => r matches Ok(f) && *f == a,
                None => r == Err::<&FontPallet, LayoutError>(LayoutError::FontNotFound),
            },
    {
        proof {
            use_type_invariant(&*self);
        }
        match font_position(&self.fonts, name) {
            Some(i) => Ok(&self.fonts[i].1),
            None => Err(LayoutError::FontNotFound),
        }
    }
}

} // verus!
