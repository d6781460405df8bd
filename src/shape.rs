use vstd::prelude::*;
use crate::font::UvPosition;
use crate::mesh::{copy_vec, Color, Mesh, Vertex};
use crate::error::LayoutError;
use crate::font::FontPallet;
use crate::style::Rect;
use crate::text::{all_found, Text, MAX_TEXT_LETTERS};

verus! {

/// Texture rectangle of a plain-colour quad: every corner samples `(0, 0)`.
pub open spec fn no_uv() -> UvPosition {
    UvPosition { u0: 0, u1: 0, v0: 0, v1: 0, u_scale: 1, v_scale: 1 }
}

/// Texture rectangle of an image quad: the whole texture, `(0, 0)` to `(1, 1)`.
pub open spec fn full_uv() -> UvPosition {
    UvPosition { u0: 0, u1: 1, v0: 0, v1: 1, u_scale: 1, v_scale: 1 }
}

/// Corner `j` of a quad: top-left, top-right, bottom-right, bottom-left.
pub open spec fn quad_vertex(
    left: int,
    top: int,
    right: int,
    bottom: int,
    color: Color,
    uv: UvPosition,
    texture_id: i32,
    j: int,
) -> Vertex {
    let x = if j == 1 || j == 2 { right } else { left };
    let y = if j == 2 || j == 3 { bottom } else { top };
    let u = if j == 1 || j == 2 { uv.u1 } else { uv.u0 };
    let v = if j == 2 || j == 3 { uv.v1 } else { uv.v0 };
    Vertex {
        x: x as i64,
        y: y as i64,
        xy_scale: 1,
        color,
        u,
        v,
        u_scale: uv.u_scale,
        v_scale: uv.v_scale,
        texture_id,
    }
}

/// The two triangles of a quad, (top-left, top-right, bottom-right) and
/// (bottom-right, bottom-left, top-left): clockwise on a y-down screen.
pub open spec fn quad_indices() -> Seq<u16> {
    seq![0u16, 1u16, 2u16, 2u16, 3u16, 0u16]
}

/// `m` is the quad with the given corners, colour, texture rectangle and texture.
pub open spec fn is_quad(
    m: Mesh<Vertex>,
    left: int,
    top: int,
    right: int,
    bottom: int,
    color: Color,
    uv: UvPosition,
    texture_id: i32,
) -> bool {
    &&& m.vertices@.len() == 4
    &&& forall|j: int|
        0 <= j < 4 ==> #[trigger] m.vertices@[j] == quad_vertex(
            left,
            top,
            right,
            bottom,
            color,
            uv,
            texture_id,
            j,
        )
    &&& m.indices@ == quad_indices()
}

/// Builds a quad: four corners and two triangles.
pub fn quad(
    left: i64,
    top: i64,
    right: i64,
    bottom: i64,
    color: Color,
    uv: UvPosition,
    texture_id: i32,
) -> (m: Mesh<Vertex>)
    ensures
        is_quad(m, left as int, top as int, right as int, bottom as int, color, uv, texture_id),
        m.wf(),
{
    let vertices = vec![
        Vertex { x: left, y: top, xy_scale: 1, color, u: uv.u0, v: uv.v0, u_scale: uv.u_scale, v_scale: uv.v_scale, texture_id },
        Vertex { x: right, y: top, xy_scale: 1, color, u: uv.u1, v: uv.v0, u_scale: uv.u_scale, v_scale: uv.v_scale, texture_id },
        Vertex { x: right, y: bottom, xy_scale: 1, color, u: uv.u1, v: uv.v1, u_scale: uv.u_scale, v_scale: uv.v_scale, texture_id },
        Vertex { x: left, y: bottom, xy_scale: 1, color, u: uv.u0, v: uv.v1, u_scale: uv.u_scale, v_scale: uv.v_scale, texture_id },
    ];
    let indices: Vec<u16> = vec![0, 1, 2, 2, 3, 0];
    let m = Mesh { vertices, indices };
    assert(m.indices@ =~= quad_indices());
    m
}

/// Whether `(px, py)` lies in the half-open box `[x, x + width) x [y, y + height)`.
pub open spec fn in_rect(area: Rect, px: int, py: int) -> bool {
    area.x <= px < area.x + area.width && area.y <= py < area.y + area.height
}

/// Whether `(px, py)` lies in the collider box, if there is one.
pub open spec fn in_collider(collider: Option<Rect>, px: int, py: int) -> bool {
    match collider {
        Some(b) => in_rect(b, px, py),
        None => false,
    }
}

fn rect_contains(area: Rect, px: i64, py: i64) -> (r: bool)
    ensures
        r == in_rect(area, px as int, py as int),
{
    area.x as i64 <= px && px < area.x as i64 + area.width as i64 && area.y as i64 <= py && py
        < area.y as i64 + area.height as i64
}

/// A solid-colour rectangle.
#[derive(Clone, Debug)]
pub struct Rectangle {
    pub area: Rect,
    pub color: Color,
    pub collider: Option<Rect>,
    pub mesh: Mesh<Vertex>,
    pub id: Option<String>,
}

impl Rectangle {
    /// An unbuilt rectangle: its mesh is empty and it has no collider until `build`.
    pub fn new(area: Rect, color: Color) -> (r: Rectangle)
        ensures
            r.area == area,
            r.color == color,
            r.collider is None,
            r.mesh.vertices@.len() == 0,
            r.mesh.indices@.len() == 0,
            r.id is None,
    {
        Rectangle {
            area,
            color,
            collider: None,
            mesh: Mesh { vertices: Vec::new(), indices: Vec::new() },
            id: None,
        }
    }

    /// The mesh of the rectangle's box: four corners, two triangles, no texture; the
    /// collider is the box.
    pub open spec fn built(&self) -> bool {
        self.collider == Some(self.area) && is_quad(
            self.mesh,
            self.area.x as int,
            self.area.y as int,
            self.area.x + self.area.width,
            self.area.y + self.area.height,
            self.color,
            no_uv(),
            -1i32,
        )
    }

    /// Rebuilds the cached mesh and the collider from the box and colour.
    pub fn build(&mut self)
        ensures
            final(self).area == old(self).area,
            final(self).color == old(self).color,
            final(self).id == old(self).id,
            final(self).built(),
            final(self).mesh.wf(),
    {
        let a = self.area;
        self.mesh = quad(
            a.x as i64,
            a.y as i64,
            a.x as i64 + a.width as i64,
            a.y as i64 + a.height as i64,
            self.color,
            UvPosition { u0: 0, u1: 0, v0: 0, v1: 0, u_scale: 1, v_scale: 1 },
            -1,
        );
        self.collider = Some(a);
    }

    /// Whether the point lies in the box of the last build; an unbuilt rectangle is
    /// never hit.
    pub fn contains(&self, px: i64, py: i64) -> (r: bool)
        ensures
            r == in_collider(self.collider, px as int, py as int),
    {
        match self.collider {
            Some(b) => rect_contains(b, px, py),
            None => false,
        }
    }
}

/// A textured rectangle showing the whole of texture `texture`.
#[derive(Clone, Debug)]
pub struct Image {
    pub area: Rect,
    pub color: Color,
    pub texture: i32,
    pub collider: Option<Rect>,
    pub mesh: Mesh<Vertex>,
    pub id: Option<String>,
}

impl Image {
    /// An unbuilt image: its mesh is empty and it has no collider until `build`.
    pub fn new(area: Rect, texture: i32) -> (r: Image)
        ensures
            r.area == area,
            r.texture == texture,
            r.collider is None,
            r.color == (Color { r: 0, g: 0, b: 0, a: 0 }),
            r.mesh.vertices@.len() == 0,
            r.mesh.indices@.len() == 0,
            r.id is None,
    {
        Image {
            area,
            color: Color { r: 0, g: 0, b: 0, a: 0 },
            texture,
            collider: None,
            mesh: Mesh { vertices: Vec::new(), indices: Vec::new() },
            id: None,
        }
    }

    /// The mesh of the image's box: four corners mapping the texture's corners; the
    /// collider is the box.
    pub open spec fn built(&self) -> bool {
        self.collider == Some(self.area) && is_quad(
            self.mesh,
            self.area.x as int,
            self.area.y as int,
            self.area.x + self.area.width,
            self.area.y + self.area.height,
            self.color,
            full_uv(),
            self.texture,
        )
    }

    /// Rebuilds the cached mesh and the collider from the box, colour and texture.
    pub fn build(&mut self)
        ensures
            final(self).area == old(self).area,
            final(self).color == old(self).color,
            final(self).texture == old(self).texture,
            final(self).id == old(self).id,
            final(self).built(),
            final(self).mesh.wf(),
    {
        let a = self.area;
        self.mesh = quad(
            a.x as i64,
            a.y as i64,
            a.x as i64 + a.width as i64,
            a.y as i64 + a.height as i64,
            self.color,
            UvPosition { u0: 0, u1: 1, v0: 0, v1: 1, u_scale: 1, v_scale: 1 },
            self.texture,
        );
        self.collider = Some(a);
    }

    /// Whether the point lies in the box of the last build; an unbuilt image is never hit.
    pub fn contains(&self, px: i64, py: i64) -> (r: bool)
        ensures
            r == in_collider(self.collider, px as int, py as int),
    {
        match self.collider {
            Some(b) => rect_contains(b, px, py),
            None => false,
        }
    }
}

/// Number of rim points of a circle's triangle fan.
pub const CIRCLE_SEGMENTS: u32 = 32;

/// Sub-pixel units per pixel of circle vertex positions.
pub const CIRCLE_SCALE: u64 = 1024;

/// `1024 * cos(j * 11.25 degrees)`, rounded, for `j` in `0..=8`.
pub open spec fn quarter_cos(j: int) -> int {
    if j <= 0 {
        1024
    } else if j == 1 {
        1004
    } else if j == 2 {
        946
    } else if j == 3 {
        851
    } else if j == 4 {
        724
    } else if j == 5 {
        569
    } else if j == 6 {
        392
    } else if j == 7 {
        200
    } else {
        0
    }
}

/// Direction of rim point `k` (taken modulo 32) of the fan, about 1024 long: `(cos, sin)`
/// of `k * 11.25` degrees scaled by 1024, with y pointing down the screen.
#[verifier::opaque]
pub open spec fn rim_direction(k: int) -> (int, int) {
    let m = k % 32;
    let q = m / 8;
    let j = m % 8;
    if q == 0 {
        (quarter_cos(j), quarter_cos(8 - j))
    } else if q == 1 {
        (-quarter_cos(8 - j), quarter_cos(j))
    } else if q == 2 {
        (-quarter_cos(j), -quarter_cos(8 - j))
    } else {
        (quarter_cos(8 - j), -quarter_cos(j))
    }
}

/// A vertex of a plain-colour shape at `(x / scale, y / scale)`.
pub open spec fn plain_vertex(x: int, y: int, scale: u64, color: Color) -> Vertex {
    Vertex {
        x: x as i64,
        y: y as i64,
        xy_scale: scale,
        color,
        u: 0,
        v: 0,
        u_scale: 1,
        v_scale: 1,
        texture_id: -1i32,
    }
}

/// Index `i` of the fan: triangle `i / 3` is (centre, rim `i / 3`, next rim point).
pub open spec fn fan_index(i: int) -> int {
    if i % 3 == 0 {
        0
    } else if i % 3 == 1 {
        i / 3 + 1
    } else {
        (i / 3 + 1) % (CIRCLE_SEGMENTS as int) + 1
    }
}

/// Twice the signed area of the triangle `a`, `b`, `(qx, qy)`.
pub open spec fn orient(a: Vertex, b: Vertex, qx: int, qy: int) -> int {
    (b.x - a.x) * (qy - a.y) - (b.y - a.y) * (qx - a.x)
}

/// The point `(qx, qy)` lies in the closed triangle `a`, `b`, `c` (either orientation).
pub open spec fn in_triangle(a: Vertex, b: Vertex, c: Vertex, qx: int, qy: int) -> bool {
    (orient(a, b, qx, qy) >= 0 && orient(b, c, qx, qy) >= 0 && orient(c, a, qx, qy) >= 0) || (
    orient(a, b, qx, qy) <= 0 && orient(b, c, qx, qy) <= 0 && orient(c, a, qx, qy) <= 0)
}

/// Cross product of rim direction `k` with `(wx, wy)`: on which side of it the point lies.
pub open spec fn side(k: int, wx: int, wy: int) -> int {
    rim_direction(k).0 * wy - rim_direction(k).1 * wx
}

/// The facts of the direction table the fan rests on, for direction `k` and the two
/// after it: consecutive directions turn one way, the polygon they span stays within
/// `101/100` of 1024 from the centre and keeps every edge at least `99/100` of 1024 away.
pub open spec fn table_fact(k: int) -> bool {
    table_numbers(
        rim_direction(k).0,
        rim_direction(k).1,
        rim_direction(k + 1).0,
        rim_direction(k + 1).1,
        rim_direction(k + 2).0,
        rim_direction(k + 2).1,
    )
}

/// `table_fact` for directions `d`, `e`, `f`.
pub open spec fn table_numbers(dx: int, dy: int, ex: int, ey: int, fx: int, fy: int) -> bool {
    let a = dx * ey - dy * ex;
    &&& -1024 <= dx <= 1024 && -1024 <= dy <= 1024
    &&& a > 0
    &&& (99 * 1024) * (99 * 1024) * ((ex - dx) * (ex - dx) + (ey - dy) * (ey - dy)) <= (100 * a) * (
    100 * a)
    &&& 100 * 100 * (dx * dx + dy * dy) <= 101 * 101 * 1024 * 1024
    &&& (ex - dx) * (fy - dy) - (ey - dy) * (fx - dx) > 0
}

proof fn lemma_table(k: int)
    requires
        0 <= k < 32,
    ensures
        table_fact(k),
        rim_direction(k + 32) == rim_direction(k),
        k < 16 ==> rim_direction(k + 16) == (-rim_direction(k).0, -rim_direction(k).1),
{
    reveal(rim_direction);
    if k == 0 {
        assert(rim_direction(0) == (1024int, 0int));
        assert(rim_direction(1) == (1004int, 200int));
        assert(rim_direction(2) == (946int, 392int));
        assert(table_numbers(1024, 0, 1004, 200, 946, 392)) by (nonlinear_arith);
        assert(table_fact(0));
    } else if k == 1 {
        assert(rim_direction(1) == (1004int, 200int));
        assert(rim_direction(2) == (946int, 392int));
        assert(rim_direction(3) == (851int, 569int));
        assert(table_numbers(1004, 200, 946, 392, 851, 569)) by (nonlinear_arith);
        assert(table_fact(1));
    } else if k == 2 {
        assert(rim_direction(2) == (946int, 392int));
        assert(rim_direction(3) == (851int, 569int));
        assert(rim_direction(4) == (724int, 724int));
        assert(table_numbers(946, 392, 851, 569, 724, 724)) by (nonlinear_arith);
        assert(table_fact(2));
    } else if k == 3 {
        assert(rim_direction(3) == (851int, 569int));
        assert(rim_direction(4) == (724int, 724int));
        assert(rim_direction(5) == (569int, 851int));
        assert(table_numbers(851, 569, 724, 724, 569, 851)) by (nonlinear_arith);
        assert(table_fact(3));
    } else if k == 4 {
        assert(rim_direction(4) == (724int, 724int));
        assert(rim_direction(5) == (569int, 851int));
        assert(rim_direction(6) == (392int, 946int));
        assert(table_numbers(724, 724, 569, 851, 392, 946)) by (nonlinear_arith);
        assert(table_fact(4));
    } else if k == 5 {
        assert(rim_direction(5) == (569int, 851int));
        assert(rim_direction(6) == (392int, 946int));
        assert(rim_direction(7) == (200int, 1004int));
        assert(table_numbers(569, 851, 392, 946, 200, 1004)) by (nonlinear_arith);
        assert(table_fact(5));
    } else if k == 6 {
        assert(rim_direction(6) == (392int, 946int));
        assert(rim_direction(7) == (200int, 1004int));
        assert(rim_direction(8) == (0int, 1024int));
        assert(table_numbers(392, 946, 200, 1004, 0, 1024)) by (nonlinear_arith);
        assert(table_fact(6));
    } else if k == 7 {
        assert(rim_direction(7) == (200int, 1004int));
        assert(rim_direction(8) == (0int, 1024int));
        assert(rim_direction(9) == (-200int, 1004int));
        assert(table_numbers(200, 1004, 0, 1024, -200, 1004)) by (nonlinear_arith);
        assert(table_fact(7));
    } else if k == 8 {
        assert(rim_direction(8) == (0int, 1024int));
        assert(rim_direction(9) == (-200int, 1004int));
        assert(rim_direction(10) == (-392int, 946int));
        assert(table_numbers(0, 1024, -200, 1004, -392, 946)) by (nonlinear_arith);
        assert(table_fact(8));
    } else if k == 9 {
        assert(rim_direction(9) == (-200int, 1004int));
        assert(rim_direction(10) == (-392int, 946int));
        assert(rim_direction(11) == (-569int, 851int));
        assert(table_numbers(-200, 1004, -392, 946, -569, 851)) by (nonlinear_arith);
        assert(table_fact(9));
    } else if k == 10 {
        assert(rim_direction(10) == (-392int, 946int));
        assert(rim_direction(11) == (-569int, 851int));
        assert(rim_direction(12) == (-724int, 724int));
        assert(table_numbers(-392, 946, -569, 851, -724, 724)) by (nonlinear_arith);
        assert(table_fact(10));
    } else if k == 11 {
        assert(rim_direction(11) == (-569int, 851int));
        assert(rim_direction(12) == (-724int, 724int));
        assert(rim_direction(13) == (-851int, 569int));
        assert(table_numbers(-569, 851, -724, 724, -851, 569)) by (nonlinear_arith);
        assert(table_fact(11));
    } else if k == 12 {
        assert(rim_direction(12) == (-724int, 724int));
        assert(rim_direction(13) == (-851int, 569int));
        assert(rim_direction(14) == (-946int, 392int));
        assert(table_numbers(-724, 724, -851, 569, -946, 392)) by (nonlinear_arith);
        assert(table_fact(12));
    } else if k == 13 {
        assert(rim_direction(13) == (-851int, 569int));
        assert(rim_direction(14) == (-946int, 392int));
        assert(rim_direction(15) == (-1004int, 200int));
        assert(table_numbers(-851, 569, -946, 392, -1004, 200)) by (nonlinear_arith);
        assert(table_fact(13));
    } else if k == 14 {
        assert(rim_direction(14) == (-946int, 392int));
        assert(rim_direction(15) == (-1004int, 200int));
        assert(rim_direction(16) == (-1024int, 0int));
        assert(table_numbers(-946, 392, -1004, 200, -1024, 0)) by (nonlinear_arith);
        assert(table_fact(14));
    } else if k == 15 {
        assert(rim_direction(15) == (-1004int, 200int));
        assert(rim_direction(16) == (-1024int, 0int));
        assert(rim_direction(17) == (-1004int, -200int));
        assert(table_numbers(-1004, 200, -1024, 0, -1004, -200)) by (nonlinear_arith);
        assert(table_fact(15));
    } else if k == 16 {
        assert(rim_direction(16) == (-1024int, 0int));
        assert(rim_direction(17) == (-1004int, -200int));
        assert(rim_direction(18) == (-946int, -392int));
        assert(table_numbers(-1024, 0, -1004, -200, -946, -392)) by (nonlinear_arith);
        assert(table_fact(16));
    } else if k == 17 {
        assert(rim_direction(17) == (-1004int, -200int));
        assert(rim_direction(18) == (-946int, -392int));
        assert(rim_direction(19) == (-851int, -569int));
        assert(table_numbers(-1004, -200, -946, -392, -851, -569)) by (nonlinear_arith);
        assert(table_fact(17));
    } else if k == 18 {
        assert(rim_direction(18) == (-946int, -392int));
        assert(rim_direction(19) == (-851int, -569int));
        assert(rim_direction(20) == (-724int, -724int));
        assert(table_numbers(-946, -392, -851, -569, -724, -724)) by (nonlinear_arith);
        assert(table_fact(18));
    } else if k == 19 {
        assert(rim_direction(19) == (-851int, -569int));
        assert(rim_direction(20) == (-724int, -724int));
        assert(rim_direction(21) == (-569int, -851int));
        assert(table_numbers(-851, -569, -724, -724, -569, -851)) by (nonlinear_arith);
        assert(table_fact(19));
    } else if k == 20 {
        assert(rim_direction(20) == (-724int, -724int));
        assert(rim_direction(21) == (-569int, -851int));
        assert(rim_direction(22) == (-392int, -946int));
        assert(table_numbers(-724, -724, -569, -851, -392, -946)) by (nonlinear_arith);
        assert(table_fact(20));
    } else if k == 21 {
        assert(rim_direction(21) == (-569int, -851int));
        assert(rim_direction(22) == (-392int, -946int));
        assert(rim_direction(23) == (-200int, -1004int));
        assert(table_numbers(-569, -851, -392, -946, -200, -1004)) by (nonlinear_arith);
        assert(table_fact(21));
    } else if k == 22 {
        assert(rim_direction(22) == (-392int, -946int));
        assert(rim_direction(23) == (-200int, -1004int));
        assert(rim_direction(24) == (0int, -1024int));
        assert(table_numbers(-392, -946, -200, -1004, 0, -1024)) by (nonlinear_arith);
        assert(table_fact(22));
    } else if k == 23 {
        assert(rim_direction(23) == (-200int, -1004int));
        assert(rim_direction(24) == (0int, -1024int));
        assert(rim_direction(25) == (200int, -1004int));
        assert(table_numbers(-200, -1004, 0, -1024, 200, -1004)) by (nonlinear_arith);
        assert(table_fact(23));
    } else if k == 24 {
        assert(rim_direction(24) == (0int, -1024int));
        assert(rim_direction(25) == (200int, -1004int));
        assert(rim_direction(26) == (392int, -946int));
        assert(table_numbers(0, -1024, 200, -1004, 392, -946)) by (nonlinear_arith);
        assert(table_fact(24));
    } else if k == 25 {
        assert(rim_direction(25) == (200int, -1004int));
        assert(rim_direction(26) == (392int, -946int));
        assert(rim_direction(27) == (569int, -851int));
        assert(table_numbers(200, -1004, 392, -946, 569, -851)) by (nonlinear_arith);
        assert(table_fact(25));
    } else if k == 26 {
        assert(rim_direction(26) == (392int, -946int));
        assert(rim_direction(27) == (569int, -851int));
        assert(rim_direction(28) == (724int, -724int));
        assert(table_numbers(392, -946, 569, -851, 724, -724)) by (nonlinear_arith);
        assert(table_fact(26));
    } else if k == 27 {
        assert(rim_direction(27) == (569int, -851int));
        assert(rim_direction(28) == (724int, -724int));
        assert(rim_direction(29) == (851int, -569int));
        assert(table_numbers(569, -851, 724, -724, 851, -569)) by (nonlinear_arith);
        assert(table_fact(27));
    } else if k == 28 {
        assert(rim_direction(28) == (724int, -724int));
        assert(rim_direction(29) == (851int, -569int));
        assert(rim_direction(30) == (946int, -392int));
        assert(table_numbers(724, -724, 851, -569, 946, -392)) by (nonlinear_arith);
        assert(table_fact(28));
    } else if k == 29 {
        assert(rim_direction(29) == (851int, -569int));
        assert(rim_direction(30) == (946int, -392int));
        assert(rim_direction(31) == (1004int, -200int));
        assert(table_numbers(851, -569, 946, -392, 1004, -200)) by (nonlinear_arith);
        assert(table_fact(29));
    } else if k == 30 {
        assert(rim_direction(30) == (946int, -392int));
        assert(rim_direction(31) == (1004int, -200int));
        assert(rim_direction(32) == (1024int, 0int));
        assert(table_numbers(946, -392, 1004, -200, 1024, 0)) by (nonlinear_arith);
        assert(table_fact(30));
    } else if k == 31 {
        assert(rim_direction(31) == (1004int, -200int));
        assert(rim_direction(32) == (1024int, 0int));
        assert(rim_direction(33) == (1004int, 200int));
        assert(table_numbers(1004, -200, 1024, 0, 1004, 200)) by (nonlinear_arith);
        assert(table_fact(31));
    }
}

/// With no sector holding `(wx, wy)`, a non-negative side at `start` stays positive for
/// the next 16 directions.
proof fn lemma_propagate(start: int, n: int, wx: int, wy: int)
    requires
        start == 0 || start == 16,
        0 <= n <= 16,
        side(start, wx, wy) >= 0,
        forall|k: int| 0 <= k < 32 && #[trigger] side(k, wx, wy) >= 0 ==> side(k + 1, wx, wy) > 0,
    ensures
        side(start + n, wx, wy) >= 0,
        n > 0 ==> side(start + n, wx, wy) > 0,
    decreases n,
{
    if n > 0 {
        lemma_propagate(start, n - 1, wx, wy);
        assert(side(start + n - 1, wx, wy) >= 0);
    }
}

/// Around the full turn, some fan sector holds the direction `(wx, wy)`.
proof fn lemma_sector(wx: int, wy: int)
    ensures
        exists|k: int| 0 <= k < 32 && #[trigger] side(k, wx, wy) >= 0 && side(k + 1, wx, wy) <= 0,
{
    if !exists|k: int| 0 <= k < 32 && #[trigger] side(k, wx, wy) >= 0 && side(k + 1, wx, wy) <= 0 {
        lemma_table(0);
        let (dx, dy) = rim_direction(0);
        assert(side(16, wx, wy) == -side(0, wx, wy)) by (nonlinear_arith)
            requires
                rim_direction(16) == (-dx, -dy),
                side(16, wx, wy) == rim_direction(16).0 * wy - rim_direction(16).1 * wx,
                side(0, wx, wy) == dx * wy - dy * wx,
        ;
        assert(side(32, wx, wy) == side(0, wx, wy));
        if side(0, wx, wy) >= 0 {
            lemma_propagate(0, 16, wx, wy);
        } else {
            lemma_propagate(16, 16, wx, wy);
        }
    }
}


fn quarter_cos_exec(j: u32) -> (r: i64)
    requires
        j <= 8,
    ensures
        r == quarter_cos(j as int),
{
    if j == 0 {
        1024
    } else if j == 1 {
        1004
    } else if j == 2 {
        946
    } else if j == 3 {
        851
    } else if j == 4 {
        724
    } else if j == 5 {
        569
    } else if j == 6 {
        392
    } else if j == 7 {
        200
    } else {
        0
    }
}

/// `(ux*wy - uy*wx)^2 <= |u|^2 |w|^2`.
proof fn lemma_cross_bound(ux: int, uy: int, wx: int, wy: int)
    ensures
        (ux * wy - uy * wx) * (ux * wy - uy * wx) <= (ux * ux + uy * uy) * (wx * wx + wy * wy),
{
    let p = ux * wy;
    let q = uy * wx;
    let s = ux * wx;
    let t = uy * wy;
    assert(p * q == s * t) by (nonlinear_arith)
        requires
            p == ux * wy,
            q == uy * wx,
            s == ux * wx,
            t == uy * wy,
    ;
    assert((p - q) * (p - q) == p * p - 2 * (p * q) + q * q) by (nonlinear_arith);
    assert((s + t) * (s + t) == s * s + 2 * (s * t) + t * t) by (nonlinear_arith);
    let (aa, bb, cc, dd) = (ux * ux, uy * uy, wx * wx, wy * wy);
    assert(p * p == aa * dd) by (nonlinear_arith)
        requires
            p == ux * wy,
            aa == ux * ux,
            dd == wy * wy,
    ;
    assert(q * q == bb * cc) by (nonlinear_arith)
        requires
            q == uy * wx,
            bb == uy * uy,
            cc == wx * wx,
    ;
    assert(s * s == aa * cc) by (nonlinear_arith)
        requires
            s == ux * wx,
            aa == ux * ux,
            cc == wx * wx,
    ;
    assert(t * t == bb * dd) by (nonlinear_arith)
        requires
            t == uy * wy,
            bb == uy * uy,
            dd == wy * wy,
    ;
    assert((aa + bb) * (cc + dd) == aa * cc + aa * dd + bb * cc + bb * dd) by (nonlinear_arith);
    assert((s + t) * (s + t) >= 0) by (nonlinear_arith);
}

proof fn lemma_expand_edge(r: int, dx: int, dy: int, ex: int, ey: int, wx: int, wy: int)
    ensures
        (r * ex - r * dx) * (wy - r * dy) - (r * ey - r * dy) * (wx - r * dx) == r * ((ex - dx) * wy
            - (ey - dy) * wx) + r * r * (dx * ey - dy * ex),
{
    assert((r * ex - r * dx) * (wy - r * dy) == r * (ex - dx) * wy - r * r * (ex - dx) * dy)
        by (nonlinear_arith);
    assert((r * ey - r * dy) * (wx - r * dx) == r * (ey - dy) * wx - r * r * (ey - dy) * dx)
        by (nonlinear_arith);
    assert(r * (ex - dx) * wy - r * (ey - dy) * wx == r * ((ex - dx) * wy - (ey - dy) * wx))
        by (nonlinear_arith);
    assert(r * r * (ey - dy) * dx - r * r * (ex - dx) * dy == r * r * (dx * ey - dy * ex))
        by (nonlinear_arith);
}

proof fn lemma_expand_turn(r: int, dx: int, dy: int, ex: int, ey: int, fx: int, fy: int)
    ensures
        (r * ex - r * dx) * (r * fy - r * dy) - (r * ey - r * dy) * (r * fx - r * dx) == r * r * ((ex
            - dx) * (fy - dy) - (ey - dy) * (fx - dx)),
{
    assert((r * ex - r * dx) * (r * fy - r * dy) == r * r * ((ex - dx) * (fy - dy)))
        by (nonlinear_arith);
    assert((r * ey - r * dy) * (r * fx - r * dx) == r * r * ((ey - dy) * (fx - dx)))
        by (nonlinear_arith);
    assert(r * r * ((ex - dx) * (fy - dy)) - r * r * ((ey - dy) * (fx - dx)) == r * r * ((ex - dx)
        * (fy - dy) - (ey - dy) * (fx - dx))) by (nonlinear_arith);
}

/// A point near enough to the centre, in the sector between rim directions `k` and
/// `k + 1`, lies in the fan triangle of that sector.
proof fn lemma_fan_triangle(a: Vertex, b: Vertex, c: Vertex, r: int, k: int, qx: int, qy: int)
    requires
        0 <= k < 32,
        r >= 0,
        table_fact(k),
        b.x == a.x + r * rim_direction(k).0,
        b.y == a.y + r * rim_direction(k).1,
        c.x == a.x + r * rim_direction(k + 1).0,
        c.y == a.y + r * rim_direction(k + 1).1,
        side(k, qx - a.x, qy - a.y) >= 0,
        side(k + 1, qx - a.x, qy - a.y) <= 0,
        100 * 100 * ((qx - a.x) * (qx - a.x) + (qy - a.y) * (qy - a.y)) <= 99 * 99 * r * r * 1024
            * 1024,
    ensures
        in_triangle(a, b, c, qx, qy),
{
    let (dx, dy) = rim_direction(k);
    let (ex, ey) = rim_direction(k + 1);
    let wx = qx - a.x;
    let wy = qy - a.y;
    let s0 = side(k, wx, wy);
    let s1 = side(k + 1, wx, wy);
    assert(s0 == dx * wy - dy * wx && s1 == ex * wy - ey * wx);
    let (bx, by, cx, cy) = (r * dx, r * dy, r * ex, r * ey);
    assert(orient(a, b, qx, qy) == bx * wy - by * wx);
    assert(bx * wy - by * wx == r * s0) by (nonlinear_arith)
        requires
            bx == r * dx,
            by == r * dy,
            s0 == dx * wy - dy * wx,
    ;
    assert(r * s0 >= 0) by (nonlinear_arith)
        requires
            r >= 0,
            s0 >= 0,
    ;
    assert(orient(c, a, qx, qy) == (0 - cx) * (wy - cy) - (0 - cy) * (wx - cx));
    assert((0 - cx) * (wy - cy) - (0 - cy) * (wx - cx) == -(r * s1)) by (nonlinear_arith)
        requires
            cx == r * ex,
            cy == r * ey,
            s1 == ex * wy - ey * wx,
    ;
    assert(-(r * s1) >= 0) by (nonlinear_arith)
        requires
            r >= 0,
            s1 <= 0,
    ;
    let ux = ex - dx;
    let uy = ey - dy;
    let area = dx * ey - dy * ex;
    let x = ux * wy - uy * wx;
    assert(orient(b, c, qx, qy) == (cx - bx) * (wy - by) - (cy - by) * (wx - bx));
    lemma_expand_edge(r, dx, dy, ex, ey, wx, wy);
    let u2 = ux * ux + uy * uy;
    let w2 = wx * wx + wy * wy;
    lemma_cross_bound(ux, uy, wx, wy);
    assert(u2 >= 0 && w2 >= 0) by (nonlinear_arith)
        requires
            u2 == ux * ux + uy * uy,
            w2 == wx * wx + wy * wy,
    ;
    let big = 100 * 100 * 100 * 100;
    assert(big * (x * x) <= big * (u2 * w2)) by (nonlinear_arith)
        requires
            x * x <= u2 * w2,
            big > 0,
    ;
    assert(big * (u2 * w2) <= (100 * 100 * u2) * (99 * 99 * r * r * 1024 * 1024)) by (nonlinear_arith)
        requires
            u2 >= 0,
            100 * 100 * w2 <= 99 * 99 * r * r * 1024 * 1024,
            big == 100 * 100 * 100 * 100,
    ;
    assert((100 * 100 * u2) * (99 * 99 * r * r * 1024 * 1024) <= big * ((r * r) * (area * area)))
        by (nonlinear_arith)
        requires
            (99 * 1024) * (99 * 1024) * u2 <= (100 * area) * (100 * area),
            big == 100 * 100 * 100 * 100,
    ;
    assert(x * x <= (r * r) * (area * area)) by (nonlinear_arith)
        requires
            big * (x * x) <= big * ((r * r) * (area * area)),
            big > 0,
    ;
    assert(x + r * area >= 0) by (nonlinear_arith)
        requires
            x * x <= (r * r) * (area * area),
            r >= 0,
            area > 0,
    ;
    assert(r * x + r * r * area >= 0) by (nonlinear_arith)
        requires
            x + r * area >= 0,
            r >= 0,
    ;
}

/// A circle's hit area as of its last build: its centre and radius.
#[derive(Clone, Copy, Debug, PartialEq, Eq, Structural)]
pub struct Disc {
    pub x: i32,
    pub y: i32,
    pub radius: u32,
}

/// A solid-colour disc centred on its box's top-left corner.
#[derive(Clone, Debug)]
pub struct Circle {
    pub area: Rect,
    pub radius: u32,
    pub color: Color,
    pub collider: Option<Disc>,
    pub mesh: Mesh<Vertex>,
    pub id: Option<String>,
}

/// Whether `(px, py)` lies on the disc: within its radius of its centre.
pub open spec fn in_disc(d: Disc, px: int, py: int) -> bool {
    (px - d.x) * (px - d.x) + (py - d.y) * (py - d.y) <= d.radius * d.radius
}

/// The point `(qx, qy)`, in units of `1 / CIRCLE_SCALE` pixel, lies within `99/100` of
/// `radius` pixels of the centre `(x, y)`.
pub open spec fn in_inner_disc(x: i32, y: i32, radius: u32, qx: int, qy: int) -> bool {
    100 * 100 * ((qx - x * 1024) * (qx - x * 1024) + (qy - y * 1024) * (qy - y * 1024)) <= 99 * 99
        * radius * radius * 1024 * 1024
}

/// The point `(qx, qy)` lies in triangle `t` of the fan `m`.
pub open spec fn in_fan_triangle(m: Mesh<Vertex>, t: int, qx: int, qy: int) -> bool {
    in_triangle(
        m.vertices@[m.indices@[3 * t] as int],
        m.vertices@[m.indices@[3 * t + 1] as int],
        m.vertices@[m.indices@[3 * t + 2] as int],
        qx,
        qy,
    )
}

/// The turn at rim point `k + 1` of the fan `m`, coming from rim point `k`.
pub open spec fn rim_turn(m: Mesh<Vertex>, k: int) -> int {
    let p = m.vertices@[k + 1];
    let q = m.vertices@[(k + 1) % 32 + 1];
    let s = m.vertices@[(k + 2) % 32 + 1];
    orient(p, q, s.x as int, s.y as int)
}

impl Circle {
    /// An unbuilt circle: its mesh is empty and it has no collider until `build`.
    pub fn new(area: Rect, radius: u32, color: Color) -> (r: Circle)
        ensures
            r.area == area,
            r.radius == radius,
            r.color == color,
            r.collider is None,
            r.mesh.vertices@.len() == 0,
            r.mesh.indices@.len() == 0,
            r.id is None,
    {
        Circle {
            area,
            radius,
            color,
            collider: None,
            mesh: Mesh { vertices: Vec::new(), indices: Vec::new() },
            id: None,
        }
    }

    /// The fan in units of `1 / CIRCLE_SCALE` pixel: the centre, then rim point `k` at
    /// `centre + radius * rim_direction(k)`, then one triangle (centre, rim `k`, rim
    /// `k + 1`) per segment, the last closing on the first; the collider is the disc.
    pub open spec fn built(&self) -> bool {
        let cx = self.area.x * 1024;
        let cy = self.area.y * 1024;
        let r = self.radius as int;
        let n = CIRCLE_SEGMENTS as int;
        &&& self.mesh.vertices@.len() == n + 1
        &&& self.mesh.vertices@[0] == plain_vertex(cx, cy, CIRCLE_SCALE, self.color)
        &&& forall|k: int|
            0 <= k < n ==> #[trigger] self.mesh.vertices@[k + 1] == plain_vertex(
                cx + r * rim_direction(k).0,
                cy + r * rim_direction(k).1,
                CIRCLE_SCALE,
                self.color,
            )
        &&& self.mesh.indices@.len() == 3 * n
        &&& forall|i: int| 0 <= i < 3 * n ==> #[trigger] self.mesh.indices@[i] == fan_index(i)
        &&& self.collider == Some(Disc { x: self.area.x, y: self.area.y, radius: self.radius })
    }

    /// Rebuilds the cached fan and the collider from the centre, radius and colour.
    ///
    /// In units of `1 / CIRCLE_SCALE` pixel around the scaled centre `c`: every vertex
    /// lies within `101/100` of the radius of `c`; every point within `99/100` of the
    /// radius of `c` lies in some triangle of the fan; and the rim turns the same way at
    /// every point, so the outline is convex.
    pub fn build(&mut self)
        ensures
            final(self).area == old(self).area,
            final(self).radius == old(self).radius,
            final(self).color == old(self).color,
            final(self).id == old(self).id,
            final(self).built(),
            final(self).mesh.wf(),
            forall|i: int|
                0 <= i < final(self).mesh.vertices@.len() ==> {
                    let v = #[trigger] final(self).mesh.vertices@[i];
                    let dx = v.x - old(self).area.x * 1024;
                    let dy = v.y - old(self).area.y * 1024;
                    &&& v.xy_scale == CIRCLE_SCALE
                    &&& 100 * 100 * (dx * dx + dy * dy) <= 101 * 101 * old(self).radius * old(
                        self,
                    ).radius * 1024 * 1024
                },
            forall|qx: int, qy: int|
                #[trigger] in_inner_disc(old(self).area.x, old(self).area.y, old(self).radius, qx, qy)
                    ==> exists|t: int|
                    0 <= t < 32 && #[trigger] in_fan_triangle(final(self).mesh, t, qx, qy),
            old(self).radius > 0 ==> forall|k: int|
                0 <= k < 32 ==> #[trigger] rim_turn(final(self).mesh, k) > 0,
    {
        let cx = self.area.x as i64 * 1024;
        let cy = self.area.y as i64 * 1024;
        let r = self.radius;
        let color = self.color;
        let mut vertices: Vec<Vertex> = Vec::new();
        vertices.push(
            Vertex {
                x: cx,
                y: cy,
                xy_scale: 1024,
                color,
                u: 0,
                v: 0,
                u_scale: 1,
                v_scale: 1,
                texture_id: -1,
            },
        );
        let mut k: u32 = 0;
        while k < CIRCLE_SEGMENTS
            invariant
                k <= CIRCLE_SEGMENTS,
                cx == self.area.x * 1024,
                cy == self.area.y * 1024,
                r == self.radius,
                color == self.color,
                vertices@.len() == k + 1,
                vertices@[0] == plain_vertex(cx as int, cy as int, CIRCLE_SCALE, color),
                forall|i: int|
                    0 <= i < k ==> #[trigger] vertices@[i + 1] == plain_vertex(
                        cx + r * rim_direction(i).0,
                        cy + r * rim_direction(i).1,
                        CIRCLE_SCALE,
                        color,
                    ),
            decreases CIRCLE_SEGMENTS - k,
        {
            let q = k / 8;
            let j = k % 8;
            let c0 = quarter_cos_exec(j);
            let c1 = quarter_cos_exec(8 - j);
            let (dx, dy): (i64, i64) = if q == 0 {
                (c0, c1)
            } else if q == 1 {
                (-c1, c0)
            } else if q == 2 {
                (-c0, -c1)
            } else {
                (c1, -c0)
            };
            assert((dx as int, dy as int) == rim_direction(k as int)) by {
                reveal(rim_direction);
            }
            assert(-(u32::MAX as int) * 1024 <= (r as int) * (dx as int) <= (u32::MAX as int) * 1024)
                by (nonlinear_arith)
                requires
                    -1024 <= dx <= 1024,
                    0 <= r <= u32::MAX,
            ;
            assert(-(u32::MAX as int) * 1024 <= (r as int) * (dy as int) <= (u32::MAX as int) * 1024)
                by (nonlinear_arith)
                requires
                    -1024 <= dy <= 1024,
                    0 <= r <= u32::MAX,
            ;
            vertices.push(
                Vertex {
                    x: cx + r as i64 * dx,
                    y: cy + r as i64 * dy,
                    xy_scale: 1024,
                    color,
                    u: 0,
                    v: 0,
                    u_scale: 1,
                    v_scale: 1,
                    texture_id: -1,
                },
            );
            k = k + 1;
        }
        let mut indices: Vec<u16> = Vec::new();
        let mut s: u16 = 0;
        while s < 32
            invariant
                s <= 32,
                indices@.len() == 3 * s,
                forall|i: int| 0 <= i < 3 * s ==> #[trigger] indices@[i] == fan_index(i),
            decreases 32 - s,
        {
            let ghost base = 3 * s as int;
            indices.push(0);
            indices.push(s + 1);
            indices.push((s + 1) % 32 + 1);
            assert(fan_index(base) == 0);
            assert(fan_index(base + 1) == s + 1);
            assert(fan_index(base + 2) == (s + 1) % 32 + 1);
            s = s + 1;
        }
        self.mesh = Mesh { vertices, indices };
        self.collider = Some(Disc { x: self.area.x, y: self.area.y, radius: self.radius });
        assert forall|i: int| 0 <= i < self.mesh.indices@.len() implies (
        #[trigger] self.mesh.indices@[i] as int) < self.mesh.vertices@.len() by {
            assert(self.mesh.indices@[i] == fan_index(i));
        }
        proof {
            lemma_circle_geometry(*self);
        }
    }

    /// Whether the point lies on the disc of the last build; an unbuilt circle is never hit.
    pub fn contains(&self, px: i64, py: i64) -> (r: bool)
        ensures
            r == match self.collider {
                Some(d) => in_disc(d, px as int, py as int),
                None => false,
            },
    {
        let d = match self.collider {
            Some(d) => d,
            None => {
                return false;
            },
        };
        let cx = d.x as i64;
        let cy = d.y as i64;
        let rad = d.radius as i64;
        if px < cx - rad || px > cx + rad || py < cy - rad || py > cy + rad {
            proof {
                let dx = px - cx;
                let dy = py - cy;
                assert(dx * dx + dy * dy > rad * rad) by (nonlinear_arith)
                    requires
                        dx < -rad || dx > rad || dy < -rad || dy > rad,
                        rad >= 0,
                ;
            }
            return false;
        }
        let dx = (px - cx) as i128;
        let dy = (py - cy) as i128;
        assert(0 <= dx * dx <= (rad as int) * (rad as int)) by (nonlinear_arith)
            requires
                -rad <= dx <= rad,
        ;
        assert(0 <= dy * dy <= (rad as int) * (rad as int)) by (nonlinear_arith)
            requires
                -rad <= dy <= rad,
        ;
        assert((rad as int) * (rad as int) <= (u32::MAX as int) * (u32::MAX as int)) by (nonlinear_arith)
            requires
                0 <= rad <= u32::MAX,
        ;
        dx * dx + dy * dy <= rad as i128 * rad as i128
    }
}

/// Rim vertex `k` of a built fan sits exactly at `centre + radius * rim_direction(k)`.
proof fn lemma_rim_vertex(c: Circle, k: int)
    requires
        c.built(),
        0 <= k < 32,
    ensures
        c.mesh.vertices@[0].x == c.area.x * 1024,
        c.mesh.vertices@[0].y == c.area.y * 1024,
        c.mesh.vertices@[k + 1].x == c.area.x * 1024 + c.radius * rim_direction(k).0,
        c.mesh.vertices@[k + 1].y == c.area.y * 1024 + c.radius * rim_direction(k).1,
{
    lemma_table(k);
    let (dx, dy) = rim_direction(k);
    let r = c.radius as int;
    assert(-(u32::MAX as int) * 1024 <= r * dx <= (u32::MAX as int) * 1024) by (nonlinear_arith)
        requires
            -1024 <= dx <= 1024,
            0 <= r <= u32::MAX,
    ;
    assert(-(u32::MAX as int) * 1024 <= r * dy <= (u32::MAX as int) * 1024) by (nonlinear_arith)
        requires
            -1024 <= dy <= 1024,
            0 <= r <= u32::MAX,
    ;
    assert(c.mesh.vertices@[k + 1] == plain_vertex(
        c.area.x * 1024 + r * dx,
        c.area.y * 1024 + r * dy,
        CIRCLE_SCALE,
        c.color,
    ));
}

/// Every vertex of a built fan lies within `101/100` of the radius of the centre.
proof fn lemma_vertex_near(c: Circle, i: int)
    requires
        c.built(),
        0 <= i < c.mesh.vertices@.len(),
    ensures
        ({
            let v = c.mesh.vertices@[i];
            let dx = v.x - c.area.x * 1024;
            let dy = v.y - c.area.y * 1024;
            &&& v.xy_scale == CIRCLE_SCALE
            &&& 100 * 100 * (dx * dx + dy * dy) <= 101 * 101 * c.radius * c.radius * 1024 * 1024
        }),
{
    let r = c.radius as int;
    if i > 0 {
        let k = i - 1;
        lemma_table(k);
        lemma_rim_vertex(c, k);
        let (ddx, ddy) = rim_direction(k);
        let (px, py) = (r * ddx, r * ddy);
        let v = c.mesh.vertices@[i];
        assert(v == c.mesh.vertices@[k + 1]);
        let vx = v.x - c.area.x * 1024;
        let vy = v.y - c.area.y * 1024;
        assert(vx == px && vy == py);
        assert(v.xy_scale == CIRCLE_SCALE);
        assert(100 * 100 * (px * px + py * py) <= 101 * 101 * r * r * 1024 * 1024) by (nonlinear_arith)
            requires
                px == r * ddx,
                py == r * ddy,
                100 * 100 * (ddx * ddx + ddy * ddy) <= 101 * 101 * 1024 * 1024,
        ;
        assert(vx * vx + vy * vy == px * px + py * py);
    } else {
        lemma_rim_vertex(c, 0);
        let v = c.mesh.vertices@[0];
        let vx = v.x - c.area.x * 1024;
        let vy = v.y - c.area.y * 1024;
        assert(vx == 0 && vy == 0);
        assert(vx * vx + vy * vy == 0);
        assert(0 <= 101 * 101 * r * r * 1024 * 1024) by (nonlinear_arith);
    }
}

/// Every point within `99/100` of the radius of the centre lies in some fan triangle.
proof fn lemma_point_covered(c: Circle, qx: int, qy: int)
    requires
        c.built(),
        in_inner_disc(c.area.x, c.area.y, c.radius, qx, qy),
    ensures
        exists|t: int| 0 <= t < 32 && #[trigger] in_fan_triangle(c.mesh, t, qx, qy),
{
    let m = c.mesh;
    let cx = c.area.x * 1024;
    let cy = c.area.y * 1024;
    let r = c.radius as int;
    lemma_sector(qx - cx, qy - cy);
    let k = choose|k: int|
        0 <= k < 32 && #[trigger] side(k, qx - cx, qy - cy) >= 0 && side(k + 1, qx - cx, qy - cy) <= 0;
    lemma_table(k);
    let n = (k + 1) % 32;
    lemma_table(n);
    assert(rim_direction(n) == rim_direction(k + 1)) by {
        if k == 31 {
            lemma_table(0);
        }
    }
    assert(m.indices@[3 * k] == fan_index(3 * k));
    assert(m.indices@[3 * k + 1] == fan_index(3 * k + 1));
    assert(m.indices@[3 * k + 2] == fan_index(3 * k + 2));
    assert(fan_index(3 * k) == 0);
    assert(fan_index(3 * k + 1) == k + 1);
    assert(fan_index(3 * k + 2) == n + 1);
    lemma_rim_vertex(c, k);
    lemma_rim_vertex(c, n);
    lemma_fan_triangle(m.vertices@[0], m.vertices@[k + 1], m.vertices@[n + 1], r, k, qx, qy);
    assert(in_fan_triangle(m, k, qx, qy));
}

/// A built fan of positive radius turns the same way at every rim point.
proof fn lemma_rim_convex(c: Circle, k: int)
    requires
        c.built(),
        c.radius > 0,
        0 <= k < 32,
    ensures
        rim_turn(c.mesh, k) > 0,
{
    let m = c.mesh;
    let r = c.radius as int;
    lemma_table(k);
    let n1 = (k + 1) % 32;
    let n2 = (k + 2) % 32;
    lemma_table(n1);
    lemma_table(n2);
    lemma_table(0);
    lemma_table(1);
    assert(rim_direction(n1) == rim_direction(k + 1));
    assert(rim_direction(n2) == rim_direction(k + 2));
    lemma_rim_vertex(c, k);
    lemma_rim_vertex(c, n1);
    lemma_rim_vertex(c, n2);
    let p = m.vertices@[k + 1];
    let q = m.vertices@[n1 + 1];
    let s = m.vertices@[n2 + 1];
    let (dx, dy) = rim_direction(k);
    let (ex, ey) = rim_direction(k + 1);
    let (fx, fy) = rim_direction(k + 2);
    let turn = (ex - dx) * (fy - dy) - (ey - dy) * (fx - dx);
    lemma_expand_turn(r, dx, dy, ex, ey, fx, fy);
    assert(rim_turn(m, k) == (r * ex - r * dx) * (r * fy - r * dy) - (r * ey - r * dy) * (r * fx - r
        * dx));
    assert(r * r * turn > 0) by (nonlinear_arith)
        requires
            r > 0,
            turn > 0,
    ;
}

/// The three geometric facts of a built fan: vertices near the circle, the inner disc
/// covered, a convex rim.
proof fn lemma_circle_geometry(c: Circle)
    requires
        c.built(),
    ensures
        forall|i: int|
            0 <= i < c.mesh.vertices@.len() ==> {
                let v = #[trigger] c.mesh.vertices@[i];
                let dx = v.x - c.area.x * 1024;
                let dy = v.y - c.area.y * 1024;
                &&& v.xy_scale == CIRCLE_SCALE
                &&& 100 * 100 * (dx * dx + dy * dy) <= 101 * 101 * c.radius * c.radius * 1024 * 1024
            },
        forall|qx: int, qy: int|
            #[trigger] in_inner_disc(c.area.x, c.area.y, c.radius, qx, qy) ==> exists|t: int|
                0 <= t < 32 && #[trigger] in_fan_triangle(c.mesh, t, qx, qy),
        c.radius > 0 ==> forall|k: int| 0 <= k < 32 ==> #[trigger] rim_turn(c.mesh, k) > 0,
{
    assert forall|i: int| 0 <= i < c.mesh.vertices@.len() implies {
        let v = #[trigger] c.mesh.vertices@[i];
        let dx = v.x - c.area.x * 1024;
        let dy = v.y - c.area.y * 1024;
        &&& v.xy_scale == CIRCLE_SCALE
        &&& 100 * 100 * (dx * dx + dy * dy) <= 101 * 101 * c.radius * c.radius * 1024 * 1024
    } by {
        lemma_vertex_near(c, i);
    }
    assert forall|qx: int, qy: int| #[trigger]
        in_inner_disc(c.area.x, c.area.y, c.radius, qx, qy) implies exists|t: int|
        0 <= t < 32 && #[trigger] in_fan_triangle(c.mesh, t, qx, qy) by {
        lemma_point_covered(c, qx, qy);
    }
    if c.radius > 0 {
        assert forall|k: int| 0 <= k < 32 implies #[trigger] rim_turn(c.mesh, k) > 0 by {
            lemma_rim_convex(c, k);
        }
    }
}

/// The closed set of drawable node bodies.
#[derive(Clone, Debug)]
pub enum Shape {
    Rectangle(Rectangle),
    Circle(Circle),
    Image(Image),
    Text(Text),
}

impl Shape {
    /// The shape's box.
    pub open spec fn area(&self) -> Rect {
        match self {
            Shape::Rectangle(s) => s.area,
            Shape::Circle(s) => s.area,
            Shape::Image(s) => s.area,
            Shape::Text(s) => s.area,
        }
    }

    /// The shape's cached mesh.
    pub open spec fn cached_mesh(&self) -> Mesh<Vertex> {
        match self {
            Shape::Rectangle(s) => s.mesh,
            Shape::Circle(s) => s.mesh,
            Shape::Image(s) => s.mesh,
            Shape::Text(s) => s.mesh,
        }
    }

    /// The shape's id, used to group and look up shapes.
    pub open spec fn id(&self) -> Option<String> {
        match self {
            Shape::Rectangle(s) => s.id,
            Shape::Circle(s) => s.id,
            Shape::Image(s) => s.id,
            Shape::Text(s) => s.id,
        }
    }

    /// `a` and `b` are the same kind of shape with the same parameters, box and mesh aside.
    pub open spec fn same_params(a: Shape, b: Shape) -> bool {
        match (a, b) {
            (Shape::Rectangle(x), Shape::Rectangle(y)) => x.color == y.color && x.id == y.id,
            (Shape::Circle(x), Shape::Circle(y)) => x.radius == y.radius && x.color == y.color
                && x.id == y.id,
            (Shape::Image(x), Shape::Image(y)) => x.color == y.color && x.texture == y.texture
                && x.id == y.id,
            (Shape::Text(x), Shape::Text(y)) => x.text == y.text && x.line_height == y.line_height
                && x.texture_index == y.texture_index && x.color == y.color && x.id == y.id,
            _ => false,
        }
    }

    /// The shape's parameters are usable: a text's lines are a positive height apart.
    pub open spec fn valid(&self) -> bool {
        match self {
            Shape::Text(t) => t.line_height > 0,
            _ => true,
        }
    }

    /// Building can succeed: only text can fail, when too long or missing a glyph.
    pub open spec fn buildable(&self, atlas: FontPallet) -> bool {
        match self {
            Shape::Text(t) => t.text@.len() <= MAX_TEXT_LETTERS && all_found(atlas, t.text@),
            _ => true,
        }
    }

    /// The error building fails with, when it fails.
    pub open spec fn build_error(&self) -> LayoutError {
        match self {
            Shape::Text(t) => if t.text@.len() > MAX_TEXT_LETTERS {
                LayoutError::BatchOverflow
            } else {
                LayoutError::GlyphNotFound
            },
            _ => LayoutError::GlyphNotFound,
        }
    }

    /// The cached mesh is the one the shape's parameters and box give.
    pub open spec fn built(&self, atlas: FontPallet) -> bool {
        match self {
            Shape::Rectangle(s) => s.built(),
            Shape::Circle(s) => s.built(),
            Shape::Image(s) => s.built(),
            Shape::Text(s) => s.built_from(atlas),
        }
    }

    /// The shape's box.
    pub fn get_box(&self) -> (r: Rect)
        ensures
            r == self.area(),
    {
        match self {
            Shape::Rectangle(s) => s.area,
            Shape::Circle(s) => s.area,
            Shape::Image(s) => s.area,
            Shape::Text(s) => s.area,
        }
    }

    /// Moves and resizes the shape; its mesh is stale until the next `build`.
    pub fn set_box(&mut self, area: Rect)
        ensures
            final(self).area() == area,
            Shape::same_params(*final(self), *old(self)),
            final(self).cached_mesh() == old(self).cached_mesh(),
            forall|px: int, py: int| #[trigger] final(self).contains_spec(px, py) == old(
                self,
            ).contains_spec(px, py),
    {
        match self {
            Shape::Rectangle(s) => s.area = area,
            Shape::Circle(s) => s.area = area,
            Shape::Image(s) => s.area = area,
            Shape::Text(s) => s.area = area,
        }
    }

    /// The shape's id, borrowed.
    pub fn id_ref(&self) -> (r: &Option<String>)
        ensures
            *r == self.id(),
    {
        match self {
            Shape::Rectangle(s) => &s.id,
            Shape::Circle(s) => &s.id,
            Shape::Image(s) => &s.id,
            Shape::Text(s) => &s.id,
        }
    }

    /// The shape's id, if it has one.
    pub fn get_id(&self) -> (r: Option<String>)
        ensures
            r == self.id(),
    {
        let id = match self {
            Shape::Rectangle(s) => &s.id,
            Shape::Circle(s) => &s.id,
            Shape::Image(s) => &s.id,
            Shape::Text(s) => &s.id,
        };
        match id {
            Some(s) => Some(s.clone()),
            None => None,
        }
    }

    /// Rebuilds the cached mesh; text is laid out against `atlas`. On failure the shape
    /// is left as it was.
    pub fn build(&mut self, atlas: &FontPallet) -> (r: Result<(), LayoutError>)
        requires
            old(self).valid(),
        ensures
            r is Ok <==> old(self).buildable(*atlas),
            r is Ok ==> final(self).built(*atlas) && final(self).cached_mesh().wf()
                && final(self).area() == old(self).area() && Shape::same_params(
                *final(self),
                *old(self),
            ),
            r matches Err(e) ==> e == old(self).build_error() && *final(self) == *old(self),
    {
        match self {
            Shape::Rectangle(s) => {
                s.build();
                Ok(())
            },
            Shape::Circle(s) => {
                s.build();
                Ok(())
            },
            Shape::Image(s) => {
                s.build();
                Ok(())
            },
            Shape::Text(s) => s.build(atlas),
        }
    }

    /// The cached mesh.
    pub fn mesh_ref(&self) -> (r: &Mesh<Vertex>)
        ensures
            *r == self.cached_mesh(),
    {
        match self {
            Shape::Rectangle(s) => &s.mesh,
            Shape::Circle(s) => &s.mesh,
            Shape::Image(s) => &s.mesh,
            Shape::Text(s) => &s.mesh,
        }
    }

    /// A copy of the cached mesh.
    pub fn mesh(&self) -> (r: Mesh<Vertex>)
        ensures
            r.vertices@ == self.cached_mesh().vertices@,
            r.indices@ == self.cached_mesh().indices@,
    {
        let m = match self {
            Shape::Rectangle(s) => &s.mesh,
            Shape::Circle(s) => &s.mesh,
            Shape::Image(s) => &s.mesh,
            Shape::Text(s) => &s.mesh,
        };
        Mesh { vertices: copy_vec(&m.vertices), indices: copy_vec(&m.indices) }
    }

    /// Whether the point hits the collider of the shape's last build: a box for
    /// rectangles and images, the disc for circles; text has no collider and is never hit.
    pub open spec fn contains_spec(&self, px: int, py: int) -> bool {
        match self {
            Shape::Rectangle(s) => in_collider(s.collider, px, py),
            Shape::Image(s) => in_collider(s.collider, px, py),
            Shape::Circle(s) => match s.collider {
                Some(d) => in_disc(d, px, py),
                None => false,
            },
            Shape::Text(_) => false,
        }
    }

    /// Whether the point hits the shape; text has no collider and is never hit.
    pub fn contains(&self, px: i64, py: i64) -> (r: bool)
        ensures
            r == self.contains_spec(px as int, py as int),
    {
        match self {
            Shape::Rectangle(s) => s.contains(px, py),
            Shape::Circle(s) => s.contains(px, py),
            Shape::Image(s) => s.contains(px, py),
            Shape::Text(_) => false,
        }
    }
}

} // verus!
