use uvea::atlas::Atlas;
use uvea::draw::{Command, DrawList};
use uvea::glyph::{
    detect_script, glyph_quads, missing_glyphs, rasterized, store_glyph, GlyphCache, GlyphEntry,
    GlyphKey, GlyphQuad, Shaped, ShapedGlyph,
};
use uvea::icon::{icon_strokes, IconStroke};
use uvea::shaping::shape_runs;
use uvea::style::Style;
use uvea::text_edit::{next_char, prev_char};
use uvea::types::{Color, ColorSlot, Icon, Radius, Rect, Vec2};

#[test]
fn script_of_latin_text() {
    assert_eq!(&detect_script("hello"), b"latn");
    assert_eq!(&detect_script(""), b"latn");
}

#[test]
fn script_of_other_scripts() {
    assert_eq!(&detect_script("привет"), b"cyrl");
    assert_eq!(&detect_script("مرحبا"), b"arab");
    assert_eq!(&detect_script("ab中文"), b"hani");
    assert_eq!(&detect_script("नमस्ते"), b"deva");
}

#[test]
fn script_first_known_char_decides() {
    assert_eq!(&detect_script("x Жи 中"), b"cyrl");
}

#[test]
fn glyph_key_codes_differ() {
    let a = GlyphKey { id: 1, size: 2 };
    let b = GlyphKey { id: 2, size: 1 };
    assert_eq!(a.code(), 65538);
    assert_ne!(a.code(), b.code());
    assert_eq!(GlyphKey { id: 65535, size: 65535 }.code(), u32::MAX);
}

fn entry(x: u32) -> GlyphEntry {
    GlyphEntry { atlas_x: x, atlas_y: 0, w: 2, h: 3, bearing_x: 1, bearing_y: 3, advance: 5 }
}

#[test]
fn glyph_cache_insert_get() {
    let mut c = GlyphCache::new();
    let k = GlyphKey { id: 7, size: 16 };
    assert!(!c.contains(k));
    assert_eq!(c.get(k), None);
    c.insert(k, entry(4));
    assert!(c.contains(k));
    assert_eq!(c.get(k), Some(entry(4)));
    assert_eq!(c.get(GlyphKey { id: 7, size: 17 }), None);
}

#[test]
fn rasterized_skips_empty_bitmaps() {
    assert!(rasterized(vec![], 0, 5, 0, 0).is_none());
    assert!(rasterized(vec![], 5, 0, 0, 0).is_none());
    let (pixels, w, h, bx, by) = rasterized(vec![1, 2, 3, 4, 5, 6], 2, 3, -1, 4).unwrap();
    assert_eq!(pixels, vec![1, 2, 3, 4, 5, 6]);
    assert_eq!((w, h, bx, by), (2, 3, -1, 7));
}

#[test]
fn store_glyph_places_and_caches() {
    let mut cache = GlyphCache::new();
    let mut atlas = Atlas::new(8);
    let k = GlyphKey { id: 3, size: 12 };
    assert!(store_glyph(&mut cache, &mut atlas, k, &[9, 8, 7, 6], 2, 2, 1, 2, 6));
    assert_eq!(
        cache.get(k),
        Some(GlyphEntry { atlas_x: 0, atlas_y: 0, w: 2, h: 2, bearing_x: 1, bearing_y: 2, advance: 6 })
    );
    assert_eq!(&atlas.pixels[0..8], &[255, 255, 255, 9, 255, 255, 255, 8]);
    assert!(atlas.dirty);
    let k2 = GlyphKey { id: 4, size: 12 };
    assert!(store_glyph(&mut cache, &mut atlas, k2, &[1; 4], 2, 2, 0, 0, 0));
    assert_eq!(cache.get(k2).unwrap().atlas_x, 3);
    let k3 = GlyphKey { id: 5, size: 12 };
    assert!(!store_glyph(&mut cache, &mut atlas, k3, &[1; 64], 8, 8, 0, 0, 0));
    assert!(!cache.contains(k3));
}

fn glyph(id: u16, adv: i32) -> ShapedGlyph {
    ShapedGlyph { id, x_offset: 0, y_offset: 1, x_advance: adv }
}

#[test]
fn missing_glyphs_in_first_order_once() {
    let mut cache = GlyphCache::new();
    cache.insert(GlyphKey { id: 2, size: 10 }, entry(0));
    let shaped = Shaped { glyphs: vec![glyph(3, 5), glyph(2, 5), glyph(1, 5), glyph(3, 5)], width: 20 };
    assert_eq!(missing_glyphs(&shaped, &cache, 10), vec![3, 1]);
    assert_eq!(missing_glyphs(&shaped, &cache, 11), vec![3, 2, 1]);
}

#[test]
fn glyph_quads_follow_pen() {
    let mut cache = GlyphCache::new();
    cache.insert(GlyphKey { id: 1, size: 10 }, entry(0));
    cache.insert(GlyphKey { id: 3, size: 10 }, entry(6));
    let shaped = Shaped { glyphs: vec![glyph(1, 5), glyph(2, 7), glyph(3, 5)], width: 17 };
    let quads = glyph_quads(&shaped, &cache, 10, Vec2::new(100, 50));
    assert_eq!(
        quads,
        vec![
            GlyphQuad { x: 101, y: 48, w: 2, h: 3, atlas_x: 0, atlas_y: 0 },
            GlyphQuad { x: 113, y: 48, w: 2, h: 3, atlas_x: 6, atlas_y: 0 },
        ]
    );
}

#[test]
fn icon_strokes_close_and_triangles() {
    let b = Rect::new(0, 0, 20, 20);
    assert_eq!(
        icon_strokes(Icon::Close, b),
        vec![
            IconStroke::Line { x1: 6, y1: 6, x2: 14, y2: 14 },
            IconStroke::Line { x1: 14, y1: 6, x2: 6, y2: 14 },
        ]
    );
    assert_eq!(
        icon_strokes(Icon::Collapsed, b),
        vec![IconStroke::Triangle { x1: 7, y1: 6, x2: 7, y2: 14, x3: 14, y3: 10 }]
    );
    assert_eq!(
        icon_strokes(Icon::Expanded, Rect::new(1, 1, 5, 5)),
        vec![IconStroke::Triangle { x1: -1, y1: 0, x2: 7, y2: 0, x3: 3, y3: 7 }]
    );
    assert_eq!(icon_strokes(Icon::Check, b).len(), 2);
}

#[test]
fn char_steps_over_multibyte() {
    let s = "aé€b";
    assert_eq!(next_char(s, 0), 1);
    assert_eq!(next_char(s, 1), 3);
    assert_eq!(next_char(s, 3), 6);
    assert_eq!(prev_char(s, 6), 3);
    assert_eq!(prev_char(s, 3), 1);
    assert_eq!(prev_char(s, 1), 0);
    assert_eq!(prev_char(s, 0), 0);
    assert_eq!(prev_char(s, next_char(s, 3)), 3);
}

#[test]
fn draw_list_skips_empty_rects() {
    let mut d = DrawList::default();
    d.rect(Rect::new(0, 0, 0, 5), Color::white());
    d.rect(Rect::new(0, 0, 5, -1), Color::white());
    assert_eq!(d.iter().count(), 0);
    d.rect(Rect::new(0, 0, 5, 5), Color::white());
    d.clip(Rect::unbounded());
    assert_eq!(d.iter().count(), 2);
    d.clear();
    assert_eq!(d.iter().count(), 0);
}

#[test]
fn draw_list_border_is_four_edges() {
    let mut d = DrawList::default();
    d.border(Rect::new(10, 10, 20, 10), Color::white());
    let rects: Vec<Rect> = d
        .iter()
        .map(|c| match c {
            Command::Rect { bounds, .. } => *bounds,
            _ => panic!("expected rectangles"),
        })
        .collect();
    assert_eq!(
        rects,
        vec![
            Rect::new(10, 9, 20, 1),
            Rect::new(10, 20, 20, 1),
            Rect::new(9, 9, 1, 12),
            Rect::new(30, 9, 1, 12),
        ]
    );
}

#[test]
fn draw_list_keeps_order_and_text() {
    let mut d = DrawList::default();
    d.text(2, String::from("x"), Vec2::new(1, 2), Color::white());
    d.icon(Icon::Check, Rect::new(0, 0, 4, 4), Color::white());
    d.image(5, Rect::new(0, 0, 4, 4), Color::white());
    d.rounded_rect(Rect::new(0, 0, 4, 4), Color::white(), Radius { bits: 0x40000000 });
    let cmds: Vec<&Command> = d.iter().collect();
    assert_eq!(cmds.len(), 4);
    assert!(matches!(cmds[0], Command::Text { font: 2, .. }));
    assert!(matches!(cmds[1], Command::Icon { kind: Icon::Check, .. }));
    assert!(matches!(cmds[2], Command::Image { source: 5, .. }));
    assert!(matches!(cmds[3], Command::Rect { outline: false, .. }));
}

#[test]
fn style_default_values() {
    let s = Style::default();
    assert_eq!(s.size, Vec2::new(68, 10));
    assert_eq!((s.padding, s.spacing, s.indent, s.title_height), (5, 4, 24, 24));
    assert_eq!((s.scroll_size, s.thumb_size), (12, 8));
    assert_eq!(s.color(ColorSlot::Window), Color::rgba(50, 50, 50, 255));
    assert_eq!(s.color(ColorSlot::Selection), Color::rgba(80, 120, 200, 150));
    assert!(!s.corner_radius.is_positive());
}

#[test]
fn shape_runs_splits_left_to_right_text_into_one_latin_run() {
    let runs = shape_runs(&[], "abc");
    assert_eq!(runs.len(), 1);
    assert_eq!((runs[0].start, runs[0].end, runs[0].rtl), (0, 3, false));
    assert_eq!(&runs[0].script, b"latn");
    assert!(runs[0].shaped.is_none());
}

#[test]
fn shape_runs_finds_right_to_left_arabic() {
    let text = "\u{0645}\u{0631}\u{062d}\u{0628}\u{0627}";
    let runs = shape_runs(&[1, 2, 3], text);
    assert_eq!(runs.len(), 1);
    assert_eq!((runs[0].start, runs[0].end, runs[0].rtl), (0, text.len(), true));
    assert_eq!(&runs[0].script, b"arab");
    assert!(runs[0].shaped.is_none());
}

#[test]
fn shape_runs_of_empty_text_is_empty() {
    assert!(shape_runs(&[], "").is_empty());
}
