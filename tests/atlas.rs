use layout_engine::error::LayoutError;
use layout_engine::font::{FontPallet, RasterGlyph, UvPosition};

fn glyph(character: char, width: u32, height: u32) -> RasterGlyph {
    RasterGlyph { character, width, height, bitmap: vec![7; (width * height) as usize] }
}

#[test]
fn glyphs_pack_left_to_right_with_padding() {
    let glyphs = vec![glyph('a', 6, 8), glyph('b', 5, 10), glyph(' ', 0, 0)];
    let atlas = FontPallet::cache(&glyphs, 10).unwrap();
    assert_eq!((atlas.max_w, atlas.max_h), (100, 100));
    let a = atlas.get('a').unwrap();
    assert_eq!((a.x, a.y, a.width, a.height), (0, 0, 6, 8));
    assert_eq!((a.offset_x, a.offset_y), (0, 2));
    assert_eq!(a.data.len(), 48);
    let b = atlas.get('b').unwrap();
    assert_eq!((b.x, b.y, b.width, b.height), (16, 0, 5, 10));
    assert_eq!((b.offset_x, b.offset_y), (1, 0));
    let space = atlas.get(' ').unwrap();
    assert_eq!((space.x, space.y, space.width, space.height), (31, 0, 3, 0));
    assert!(space.data.is_empty());
}

#[test]
fn full_shelf_wraps_below_tallest_glyph() {
    let glyphs = vec![glyph('a', 50, 4), glyph('b', 50, 9), glyph('c', 20, 2)];
    let atlas = FontPallet::cache(&glyphs, 10).unwrap();
    let b = atlas.get('b').unwrap();
    assert_eq!((b.x, b.y), (0, 19));
    let c = atlas.get('c').unwrap();
    assert_eq!((c.x, c.y), (60, 19));
}

#[test]
fn glyph_wider_than_canvas_overflows() {
    let glyphs = vec![glyph('w', 9, 1)];
    assert_eq!(FontPallet::cache(&glyphs, 3).err().map(|_| ()), Some(()));
    assert!(matches!(FontPallet::cache(&glyphs, 3), Err(LayoutError::AtlasOverflow)));
}

#[test]
fn too_many_shelves_overflow() {
    let glyphs: Vec<RasterGlyph> = "abcdefghij".chars().map(|c| glyph(c, 4, 4)).collect();
    assert!(matches!(FontPallet::cache(&glyphs, 4), Err(LayoutError::AtlasOverflow)));
}

#[test]
fn empty_set_builds_empty_atlas() {
    let atlas = FontPallet::cache(&Vec::new(), 12).unwrap();
    assert_eq!((atlas.max_w, atlas.max_h), (144, 144));
    assert!(atlas.characters.is_empty());
}

#[test]
fn missing_character_is_not_found() {
    let atlas = FontPallet::cache(&vec![glyph('a', 2, 2)], 10).unwrap();
    assert!(matches!(atlas.get('z'), Err(LayoutError::GlyphNotFound)));
}

#[test]
fn character_offsets_are_maxima() {
    let glyphs = vec![glyph('a', 6, 8), glyph('b', 9, 3), glyph('c', 2, 11)];
    assert_eq!(FontPallet::character_offsets(&glyphs), (11, 9));
    assert_eq!(FontPallet::character_offsets(&Vec::new()), (0, 0));
}

#[test]
fn packed_glyphs_stay_on_canvas_and_apart() {
    let glyphs: Vec<RasterGlyph> = (0..40u32)
        .map(|i| glyph(char::from_u32('A' as u32 + i).unwrap(), 3 + i % 7, 2 + i % 9))
        .collect();
    let atlas = FontPallet::cache(&glyphs, 16).unwrap();
    let row = FontPallet::character_offsets(&glyphs).0;
    let cs = &atlas.characters;
    for a in cs {
        assert!(a.x + a.width < atlas.max_w);
        assert!(a.y + row <= atlas.max_h);
    }
    for i in 0..cs.len() {
        for j in i + 1..cs.len() {
            let (a, b) = (&cs[i], &cs[j]);
            assert!(
                a.x + a.width <= b.x || b.x + b.width <= a.x || a.y + row <= b.y || b.y + row <= a.y
            );
        }
    }
}

#[test]
fn uv_rectangle_is_padded_and_clamped() {
    let glyphs = vec![glyph('a', 6, 8), glyph('b', 5, 10)];
    let atlas = FontPallet::cache(&glyphs, 10).unwrap();
    let a = atlas.get('a').unwrap().get_uv_position();
    assert_eq!(a, UvPosition { u0: 0, u1: 610, v0: 0, v1: 810, u_scale: 10000, v_scale: 10000 });
    let b = atlas.get('b').unwrap().get_uv_position();
    assert_eq!(b, UvPosition { u0: 1590, u1: 2110, v0: 0, v1: 1010, u_scale: 10000, v_scale: 10000 });
}

#[test]
fn every_uv_rectangle_lies_in_unit_square() {
    let glyphs: Vec<RasterGlyph> = (0..30u32)
        .map(|i| glyph(char::from_u32('a' as u32 + i).unwrap(), i % 5, 1 + i % 4))
        .collect();
    let atlas = FontPallet::cache(&glyphs, 9).unwrap();
    for g in &atlas.characters {
        let uv = g.get_uv_position();
        assert!(uv.u0 < uv.u1 && uv.u1 <= uv.u_scale);
        assert!(uv.v0 < uv.v1 && uv.v1 <= uv.v_scale);
    }
}

#[test]
fn repeated_character_is_refused() {
    let glyphs = vec![glyph('a', 2, 2), glyph('b', 2, 2), glyph('a', 3, 3)];
    assert!(matches!(FontPallet::cache(&glyphs, 10), Err(LayoutError::DuplicateGlyph)));
    let too_big = vec![glyph('a', 90, 2), glyph('a', 90, 2)];
    assert!(matches!(FontPallet::cache(&too_big, 3), Err(LayoutError::DuplicateGlyph)));
}
