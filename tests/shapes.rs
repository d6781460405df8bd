use layout_engine::mesh::{Color, Vertex};
use layout_engine::shape::{Circle, Image, Rectangle, Shape};
use layout_engine::style::Rect;

const RED: Color = Color { r: 255, g: 0, b: 0, a: 255 };

fn corner(x: i64, y: i64, color: Color, u: u64, v: u64, texture_id: i32) -> Vertex {
    Vertex { x, y, xy_scale: 1, color, u, v, u_scale: 1, v_scale: 1, texture_id }
}

#[test]
fn rectangle_builds_two_triangles_over_its_box() {
    let mut r = Rectangle::new(Rect { x: 10, y: 10, width: 50, height: 20 }, RED);
    r.build();
    assert_eq!(r.mesh.vertices.len(), 4);
    assert_eq!(r.mesh.indices, vec![0, 1, 2, 2, 3, 0]);
    assert_eq!(
        r.mesh.vertices,
        vec![
            corner(10, 10, RED, 0, 0, -1),
            corner(60, 10, RED, 0, 0, -1),
            corner(60, 30, RED, 0, 0, -1),
            corner(10, 30, RED, 0, 0, -1),
        ]
    );
}

#[test]
fn rectangle_triangles_are_clockwise_on_screen() {
    let mut r = Rectangle::new(Rect { x: 10, y: 10, width: 50, height: 20 }, RED);
    r.build();
    for t in r.mesh.indices.chunks(3) {
        let a = r.mesh.vertices[t[0] as usize];
        let b = r.mesh.vertices[t[1] as usize];
        let c = r.mesh.vertices[t[2] as usize];
        let cross = (b.x - a.x) * (c.y - a.y) - (b.y - a.y) * (c.x - a.x);
        assert!(cross > 0);
    }
}

#[test]
fn image_maps_whole_texture() {
    let mut img = Image::new(Rect { x: 0, y: 5, width: 8, height: 4 }, 3);
    img.build();
    let clear = Color { r: 0, g: 0, b: 0, a: 0 };
    assert_eq!(
        img.mesh.vertices,
        vec![
            corner(0, 5, clear, 0, 0, 3),
            corner(8, 5, clear, 1, 0, 3),
            corner(8, 9, clear, 1, 1, 3),
            corner(0, 9, clear, 0, 1, 3),
        ]
    );
    assert_eq!(img.mesh.indices, vec![0, 1, 2, 2, 3, 0]);
}

#[test]
fn circle_is_a_closed_fan() {
    let mut c = Circle::new(Rect { x: 100, y: 200, width: 0, height: 0 }, 50, RED);
    c.build();
    let s = 1024;
    assert_eq!(c.mesh.vertices.len(), 33);
    assert_eq!(c.mesh.indices.len(), 96);
    assert!(c.mesh.vertices.iter().all(|v| v.xy_scale == 1024));
    assert_eq!((c.mesh.vertices[0].x, c.mesh.vertices[0].y), (100 * s, 200 * s));
    assert_eq!((c.mesh.vertices[1].x, c.mesh.vertices[1].y), (150 * s, 200 * s));
    assert_eq!((c.mesh.vertices[9].x, c.mesh.vertices[9].y), (100 * s, 250 * s));
    assert_eq!((c.mesh.vertices[17].x, c.mesh.vertices[17].y), (50 * s, 200 * s));
    assert_eq!((c.mesh.vertices[25].x, c.mesh.vertices[25].y), (100 * s, 150 * s));
    assert_eq!((c.mesh.vertices[2].x, c.mesh.vertices[2].y), (100 * s + 50 * 1004, 200 * s + 50 * 200));
    assert_eq!(&c.mesh.indices[0..3], &[0, 1, 2]);
    assert_eq!(&c.mesh.indices[93..96], &[0, 32, 1]);
    for v in &c.mesh.vertices[1..] {
        let (dx, dy) = (v.x - 100 * s, v.y - 200 * s);
        let d2 = (dx * dx + dy * dy) as i128;
        let r2 = (50 * s * 50 * s) as i128;
        assert!(100 * 100 * d2 <= 101 * 101 * r2);
        assert!(100 * 100 * d2 >= 99 * 99 * r2);
    }
}

fn orient(a: &Vertex, b: &Vertex, qx: i64, qy: i64) -> i128 {
    (b.x - a.x) as i128 * (qy - a.y) as i128 - (b.y - a.y) as i128 * (qx - a.x) as i128
}

fn covered(c: &Circle, qx: i64, qy: i64) -> bool {
    let (vs, is) = (&c.mesh.vertices, &c.mesh.indices);
    is.chunks(3).any(|t| {
        let (a, b, d) = (&vs[t[0] as usize], &vs[t[1] as usize], &vs[t[2] as usize]);
        let o = [orient(a, b, qx, qy), orient(b, d, qx, qy), orient(d, a, qx, qy)];
        o.iter().all(|&x| x >= 0) || o.iter().all(|&x| x <= 0)
    })
}

#[test]
fn small_circle_covers_its_inner_disc() {
    let mut c = Circle::new(Rect { x: 100, y: 100, width: 0, height: 0 }, 10, RED);
    c.build();
    assert!(covered(&c, 109 * 1024, 104 * 1024));
    for px in 90..=110i64 {
        for py in 90..=110i64 {
            let (dx, dy) = (px - 100, py - 100);
            if 100 * 100 * (dx * dx + dy * dy) <= 99 * 99 * 100 {
                assert!(covered(&c, px * 1024, py * 1024), "{} {}", px, py);
            }
        }
    }
    for q in 0..64i64 {
        let (qx, qy) = (100 * 1024 + q * 151 - 4800, 100 * 1024 + q * 97 - 3100);
        assert!(covered(&c, qx, qy));
    }
}

#[test]
fn circle_rim_is_convex() {
    for radius in [1u32, 3, 10, 50, 1000] {
        let mut c = Circle::new(Rect { x: 7, y: 9, width: 0, height: 0 }, radius, RED);
        c.build();
        let rim = &c.mesh.vertices[1..];
        for k in 0..32 {
            let (p, q, s) = (&rim[k], &rim[(k + 1) % 32], &rim[(k + 2) % 32]);
            assert!(orient(p, q, s.x, s.y) > 0);
        }
    }
}

#[test]
fn rectangle_contains_is_half_open() {
    let mut r = Rectangle::new(Rect { x: 10, y: 10, width: 50, height: 20 }, RED);
    assert!(!r.contains(10, 10));
    r.build();
    assert!(r.contains(10, 10));
    assert!(r.contains(59, 29));
    assert!(!r.contains(60, 20));
    assert!(!r.contains(20, 30));
    assert!(!r.contains(9, 15));
}

#[test]
fn circle_contains_the_disc_only() {
    let mut c = Circle::new(Rect { x: 0, y: 0, width: 0, height: 0 }, 10, RED);
    assert!(!c.contains(0, 0));
    c.build();
    assert!(c.contains(0, 0));
    assert!(c.contains(6, 8));
    assert!(!c.contains(8, 8));
    assert!(c.contains(-10, 0));
    assert!(!c.contains(i64::MAX, 0));
}

#[test]
fn hit_test_uses_last_built_collider() {
    let mut s = Shape::Rectangle(Rectangle::new(Rect { x: 0, y: 0, width: 10, height: 10 }, RED));
    let atlas = layout_engine::font::FontPallet::cache(&Vec::new(), 10).unwrap();
    s.build(&atlas).unwrap();
    s.set_box(Rect { x: 100, y: 100, width: 10, height: 10 });
    assert!(s.contains(5, 5));
    assert!(!s.contains(105, 105));
    s.build(&atlas).unwrap();
    assert!(!s.contains(5, 5));
    assert!(s.contains(105, 105));
    let mut img = Image::new(Rect { x: 0, y: 0, width: 4, height: 4 }, 1);
    assert!(!img.contains(1, 1));
    img.build();
    assert!(img.contains(1, 1));
}

#[test]
fn shape_set_box_then_build() {
    let mut s = Shape::Rectangle(Rectangle::new(Rect { x: 0, y: 0, width: 1, height: 1 }, RED));
    s.set_box(Rect { x: 5, y: 6, width: 7, height: 8 });
    assert_eq!(s.get_box(), Rect { x: 5, y: 6, width: 7, height: 8 });
    assert!(s.mesh().vertices.is_empty());
    let atlas = layout_engine::font::FontPallet::cache(&Vec::new(), 10).unwrap();
    assert_eq!(s.build(&atlas), Ok(()));
    let m = s.mesh();
    assert_eq!((m.vertices[2].x, m.vertices[2].y), (12, 14));
    assert_eq!(s.get_id(), None);
}
