use layout_engine::error::LayoutError;
use layout_engine::events::{Event, InputEvent, Keyboard, Mouse, LEFT_BUTTON, MIDDLE_BUTTON, RIGHT_BUTTON};
use layout_engine::font::{FontPallet, FontRegistry, RasterGlyph};
use layout_engine::mesh::Color;
use layout_engine::node::{Node, NodeWalker};
use layout_engine::shape::{Circle, Rectangle, Shape};
use layout_engine::style::{Grid, GridSpan, Margin, Rect};
use layout_engine::text::Text;

const WHITE: Color = Color { r: 255, g: 255, b: 255, a: 255 };

fn atlas() -> FontPallet {
    let glyphs = vec![
        RasterGlyph { character: 'a', width: 6, height: 8, bitmap: vec![1; 48] },
        RasterGlyph { character: 'b', width: 5, height: 10, bitmap: vec![2; 50] },
    ];
    FontPallet::cache(&glyphs, 10).unwrap()
}

fn text_shape(area: Rect, s: &str) -> Text {
    let mut t = Text::new(area, 40, 2, WHITE);
    t.text(s);
    t
}

#[test]
fn text_places_letters_side_by_side() {
    let font = atlas();
    let mut t = text_shape(Rect { x: 100, y: 50, width: 500, height: 40 }, "ab");
    assert_eq!(t.build(&font), Ok(()));
    assert_eq!(t.mesh.vertices.len(), 8);
    assert_eq!(t.mesh.indices, vec![0, 1, 2, 2, 3, 0, 4, 5, 6, 6, 7, 4]);
    let a = &t.mesh.vertices[0..4];
    assert_eq!((a[0].x, a[0].y), (100, 52));
    assert_eq!((a[2].x, a[2].y), (106, 60));
    let b = &t.mesh.vertices[4..8];
    assert_eq!((b[0].x, b[0].y), (106, 50));
    assert_eq!((b[2].x, b[2].y), (111, 60));
    assert_eq!((b[0].u, b[0].v, b[0].u_scale), (1590, 0, 10000));
    assert_eq!(b[0].texture_id, 2);
}

#[test]
fn text_wraps_after_exceeding_width() {
    let font = atlas();
    let mut t = text_shape(Rect { x: 0, y: 0, width: 10, height: 40 }, "aaa");
    assert_eq!(t.build(&font), Ok(()));
    let xs: Vec<(i64, i64)> = t.mesh.vertices.chunks(4).map(|q| (q[0].x, q[0].y - 2)).collect();
    assert_eq!(xs, vec![(0, 0), (6, 0), (0, 40)]);
}

#[test]
fn text_with_unknown_glyph_fails_and_keeps_mesh() {
    let font = atlas();
    let mut t = text_shape(Rect { x: 0, y: 0, width: 10, height: 40 }, "ab");
    t.build(&font).unwrap();
    let before = t.mesh.vertices.clone();
    t.text("az");
    assert_eq!(t.build(&font), Err(LayoutError::GlyphNotFound));
    assert_eq!(t.mesh.vertices, before);
}

#[test]
fn overlong_text_is_batch_overflow() {
    let font = atlas();
    let long = "a".repeat(16385);
    let mut t = text_shape(Rect { x: 0, y: 0, width: 10, height: 40 }, &long);
    assert_eq!(t.build(&font), Err(LayoutError::BatchOverflow));
}

fn rect_node(id: &str, parent: Option<&str>, grid: Option<Grid>, area: Option<GridSpan>, b: Rect) -> Node {
    Node {
        id: id.to_string(),
        parent: parent.map(|p| p.to_string()),
        grid,
        area,
        margin: Margin::default(),
        body: Shape::Rectangle(Rectangle::new(b, WHITE)),
    }
}

fn container() -> Node {
    rect_node("root", None, Some(Grid::new(12, 12)), None, Rect { x: 0, y: 0, width: 1200, height: 1200 })
}

fn span(cs: u32, ce: u32, rs: u32, re: u32) -> GridSpan {
    GridSpan { column_start: cs, column_end: ce, row_start: rs, row_end: re }
}

fn zero() -> Rect {
    Rect { x: 0, y: 0, width: 0, height: 0 }
}

#[test]
fn tree_resolves_children_in_container_grid() {
    let font = atlas();
    let mut tree = NodeWalker::create();
    tree.add(container(), &font).unwrap();
    tree.add(rect_node("left", Some("root"), None, Some(span(0, 6, 0, 6)), zero()), &font).unwrap();
    tree.add(rect_node("right", Some("root"), None, Some(span(6, 12, 6, 12)), zero()), &font).unwrap();
    let left = tree.find(&"left".to_string()).unwrap();
    assert_eq!(left.body.get_box(), Rect { x: 0, y: 0, width: 600, height: 600 });
    let right = tree.find(&"right".to_string()).unwrap();
    assert_eq!(right.body.get_box(), Rect { x: 600, y: 600, width: 600, height: 600 });
    assert_eq!(right.body.mesh().vertices[2].x, 1200);
}

#[test]
fn batch_follows_insertion_order() {
    let font = atlas();
    let mut tree = NodeWalker::create();
    tree.add(container(), &font).unwrap();
    tree.add(rect_node("b", Some("root"), None, Some(span(0, 1, 0, 1)), zero()), &font).unwrap();
    let mut c = Circle::new(zero(), 5, WHITE);
    c.id = Some("dot".to_string());
    let circle = Node {
        id: "c".to_string(),
        parent: Some("root".to_string()),
        grid: None,
        area: Some(span(2, 3, 2, 3)),
        margin: Margin::default(),
        body: Shape::Circle(c),
    };
    tree.add(circle, &font).unwrap();
    let batch = tree.get_batch().unwrap();
    assert_eq!(batch.vertices.len(), 4 + 4 + 33);
    assert_eq!((batch.vertices[0].x, batch.vertices[0].y), (0, 0));
    assert_eq!((batch.vertices[2].x, batch.vertices[2].y), (1200, 1200));
    assert_eq!((batch.vertices[6].x, batch.vertices[6].y), (100, 100));
    assert_eq!((batch.vertices[8].x, batch.vertices[8].y), (200 * 1024, 200 * 1024));
    assert_eq!(&batch.indices[6..12], &[4, 5, 6, 6, 7, 4]);
    assert_eq!(&batch.indices[12..15], &[8, 9, 10]);
    assert!(batch.indices.iter().all(|&i| (i as usize) < batch.vertices.len()));
    assert_eq!(tree.find(&"c".to_string()).unwrap().body.get_id(), Some("dot".to_string()));
}

#[test]
fn duplicate_id_is_rejected() {
    let font = atlas();
    let mut tree = NodeWalker::create();
    tree.add(container(), &font).unwrap();
    assert_eq!(tree.add(container(), &font), Err(LayoutError::DuplicateId));
    assert_eq!(tree.tree.len(), 1);
}

#[test]
fn unknown_parent_is_not_found() {
    let font = atlas();
    let mut tree = NodeWalker::create();
    let orphan = rect_node("x", Some("nobody"), None, Some(span(0, 1, 0, 1)), zero());
    assert_eq!(tree.add(orphan, &font), Err(LayoutError::NodeNotFound));
    assert!(tree.tree.is_empty());
    assert!(matches!(tree.find(&"x".to_string()), Err(LayoutError::NodeNotFound)));
}

#[test]
fn parent_without_grid_is_missing_grid_context() {
    let font = atlas();
    let mut tree = NodeWalker::create();
    tree.add(rect_node("plain", None, None, None, zero()), &font).unwrap();
    let child = rect_node("x", Some("plain"), None, Some(span(0, 1, 0, 1)), zero());
    assert_eq!(tree.add(child, &font), Err(LayoutError::MissingGridContext));
}

#[test]
fn child_without_area_is_missing_area() {
    let font = atlas();
    let mut tree = NodeWalker::create();
    tree.add(container(), &font).unwrap();
    let child = rect_node("x", Some("root"), None, None, zero());
    assert_eq!(tree.add(child, &font), Err(LayoutError::MissingArea));
}

#[test]
fn bad_span_in_tree_is_invalid_span() {
    let font = atlas();
    let mut tree = NodeWalker::create();
    tree.add(container(), &font).unwrap();
    let child = rect_node("x", Some("root"), None, Some(span(4, 2, 0, 1)), zero());
    assert_eq!(tree.add(child, &font), Err(LayoutError::InvalidSpan));
    assert_eq!(tree.tree.len(), 1);
}

#[test]
fn text_node_with_unknown_glyph_is_not_inserted() {
    let font = atlas();
    let mut tree = NodeWalker::create();
    tree.add(container(), &font).unwrap();
    let node = Node {
        id: "label".to_string(),
        parent: Some("root".to_string()),
        grid: None,
        area: Some(span(0, 12, 0, 1)),
        margin: Margin::default(),
        body: Shape::Text(text_shape(zero(), "abc")),
    };
    assert_eq!(tree.add(node, &font), Err(LayoutError::GlyphNotFound));
    assert_eq!(tree.tree.len(), 1);
}

#[test]
fn collides_tests_the_named_node() {
    let font = atlas();
    let mut tree = NodeWalker::create();
    tree.add(container(), &font).unwrap();
    tree.add(rect_node("cell", Some("root"), None, Some(span(1, 2, 1, 2)), zero()), &font).unwrap();
    assert_eq!(tree.collides(&"cell".to_string(), 150, 150), Ok(true));
    assert_eq!(tree.collides(&"cell".to_string(), 250, 150), Ok(false));
    assert_eq!(tree.collides(&"none".to_string(), 0, 0), Err(LayoutError::NodeNotFound));
    assert!(tree.find(&"cell".to_string()).unwrap().collides(100, 100));
    assert_eq!(tree.find(&"root".to_string()).unwrap().get_grid(), Ok(Grid::new(12, 12)));
    assert_eq!(tree.find(&"cell".to_string()).unwrap().get_grid(), Err(LayoutError::MissingGridContext));
}

#[test]
fn too_many_vertices_is_batch_overflow() {
    let font = atlas();
    let mut tree = NodeWalker::create();
    for i in 0..1986 {
        let node = Node {
            id: format!("c{}", i),
            parent: None,
            grid: None,
            area: None,
            margin: Margin::default(),
            body: Shape::Circle(Circle::new(zero(), 3, WHITE)),
        };
        tree.add(node, &font).unwrap();
    }
    assert!(matches!(tree.get_batch(), Err(LayoutError::BatchOverflow)));
}

#[test]
fn keyboard_tracks_held_keys() {
    let mut k = Keyboard::new();
    assert!(!k.is_pressed(4));
    k.press(4);
    k.press(9);
    assert!(k.is_pressed(4) && k.is_pressed(9));
    k.release(4);
    assert!(!k.is_pressed(4));
    assert!(k.is_pressed(9));
}

fn tagged_rect(id: &str, tag: Option<&str>, x: i32) -> Node {
    let mut r = Rectangle::new(Rect { x, y: 0, width: 1, height: 1 }, WHITE);
    r.id = tag.map(|t| t.to_string());
    Node { id: id.to_string(), parent: None, grid: None, area: None, margin: Margin::default(), body: Shape::Rectangle(r) }
}

#[test]
fn batches_group_by_shape_tag_in_tree_order() {
    let font = atlas();
    let mut tree = NodeWalker::create();
    tree.add(tagged_rect("n0", Some("icons"), 0), &font).unwrap();
    tree.add(tagged_rect("n1", None, 10), &font).unwrap();
    tree.add(tagged_rect("n2", Some("text"), 20), &font).unwrap();
    tree.add(tagged_rect("n3", Some("icons"), 30), &font).unwrap();
    tree.add(tagged_rect("n4", Some("other"), 40), &font).unwrap();
    let keys = vec!["icons".to_string(), "text".to_string()];
    let batches = tree.get_batches(&keys).unwrap();
    assert_eq!(batches.len(), 3);
    let firsts = |b: &layout_engine::mesh::Batch<layout_engine::mesh::Vertex>| {
        b.vertices.chunks(4).map(|q| q[0].x).collect::<Vec<i64>>()
    };
    assert_eq!(firsts(&batches[0]), vec![0, 30]);
    assert_eq!(firsts(&batches[1]), vec![20]);
    assert_eq!(firsts(&batches[2]), vec![10, 40]);
    assert_eq!(batches[0].indices, vec![0, 1, 2, 2, 3, 0, 4, 5, 6, 6, 7, 4]);
}

#[test]
fn no_keys_puts_everything_in_default_batch() {
    let font = atlas();
    let mut tree = NodeWalker::create();
    tree.add(tagged_rect("n0", Some("icons"), 0), &font).unwrap();
    tree.add(tagged_rect("n1", None, 10), &font).unwrap();
    let batches = tree.get_batches(&Vec::new()).unwrap();
    assert_eq!(batches.len(), 1);
    assert_eq!(batches[0].vertices, tree.get_batch().unwrap().vertices);
}

#[test]
fn registry_replaces_and_finds_atlases() {
    let mut fonts = FontRegistry::new();
    assert!(matches!(fonts.get_font(&"mono".to_string()), Err(LayoutError::FontNotFound)));
    fonts.create_font("mono".to_string(), atlas());
    let small = FontPallet::cache(&Vec::new(), 4).unwrap();
    fonts.create_font("tiny".to_string(), small);
    assert_eq!(fonts.get_font(&"mono".to_string()).unwrap().max_w, 100);
    assert_eq!(fonts.get_font(&"tiny".to_string()).unwrap().max_w, 16);
    fonts.create_font("mono".to_string(), FontPallet::cache(&Vec::new(), 5).unwrap());
    assert_eq!(fonts.get_font(&"mono".to_string()).unwrap().max_w, 25);
    assert_eq!(fonts.get_font(&"tiny".to_string()).unwrap().max_w, 16);
}

#[test]
fn input_events_update_state() {
    use_events();
}

fn use_events() {
    let mut e = Event::new();
    e.handle_event(InputEvent::CursorMoved(40, 70));
    e.handle_event(InputEvent::ButtonPressed(LEFT_BUTTON));
    e.handle_event(InputEvent::KeyPressed(17));
    assert_eq!((e.mouse.x, e.mouse.y), (40, 70));
    assert!(e.mouse.on_left_click());
    assert!(!e.mouse.on_right_click());
    assert!(e.keyboard.is_pressed(17));
    assert!(!e.resized);
    e.handle_event(InputEvent::Resized);
    e.handle_event(InputEvent::ButtonReleased(LEFT_BUTTON));
    e.handle_event(InputEvent::ButtonPressed(RIGHT_BUTTON));
    e.handle_event(InputEvent::KeyReleased(17));
    assert!(e.resized);
    assert!(!e.mouse.on_left_click());
    assert!(e.mouse.on_right_click());
    assert!(!e.keyboard.is_pressed(17));
    e.clear();
    assert!(!e.resized);
    assert!(e.mouse.on_right_click());
}

#[test]
fn mouse_tracks_position_and_buttons() {
    let mut m = Mouse::new();
    m.set_position(3, 4);
    m.button_pressed(MIDDLE_BUTTON);
    assert_eq!((m.x, m.y), (3, 4));
    assert!(m.pressed_buttons.contains(&MIDDLE_BUTTON));
    m.button_released(MIDDLE_BUTTON);
    assert!(m.pressed_buttons.is_empty());
}
