use uvea::layout::{Layout, NextType};
use uvea::types::{Color, Options, Rect, Response, Vec2};

#[test]
fn rect_new_keeps_fields() {
    let r = Rect::new(1, 2, 3, 4);
    assert_eq!((r.x, r.y, r.w, r.h), (1, 2, 3, 4));
}

#[test]
fn rect_expand_grows_every_side() {
    let r = Rect::new(10, 20, 30, 40).expand(5);
    assert_eq!(r, Rect::new(5, 15, 40, 50));
    let s = Rect::new(10, 20, 30, 40).expand(-5);
    assert_eq!(s, Rect::new(15, 25, 20, 30));
}

#[test]
fn rect_intersect_overlap() {
    let a = Rect::new(0, 0, 10, 10);
    let b = Rect::new(5, 5, 10, 10);
    assert_eq!(a.intersect(b), Rect::new(5, 5, 5, 5));
    assert_eq!(b.intersect(a), Rect::new(5, 5, 5, 5));
}

#[test]
fn rect_intersect_disjoint_is_empty() {
    let a = Rect::new(0, 0, 10, 10);
    let b = Rect::new(20, 30, 5, 5);
    let c = a.intersect(b);
    assert_eq!((c.x, c.y, c.w, c.h), (20, 30, 0, 0));
}

#[test]
fn rect_contains_excludes_far_edges() {
    let r = Rect::new(0, 0, 10, 10);
    assert!(r.contains(Vec2::new(0, 0)));
    assert!(r.contains(Vec2::new(9, 9)));
    assert!(!r.contains(Vec2::new(10, 5)));
    assert!(!r.contains(Vec2::new(5, 10)));
    assert!(!r.contains(Vec2::new(-1, 5)));
}

#[test]
fn rect_unbounded_value() {
    assert_eq!(Rect::unbounded(), Rect::new(0, 0, 0x1000000, 0x1000000));
}

#[test]
fn color_rgba_and_constants() {
    let c = Color::rgba(1, 2, 3, 4);
    assert_eq!((c.r, c.g, c.b, c.a), (1, 2, 3, 4));
    assert_eq!(Color::white(), Color::rgba(255, 255, 255, 255));
    assert_eq!(Color::transparent(), Color::rgba(0, 0, 0, 0));
}

#[test]
fn option_flags_combine() {
    let o = Options::no_title().union(Options::no_resize());
    assert!(o.contains(Options::no_title()));
    assert!(o.contains(Options::no_resize()));
    assert!(!o.contains(Options::no_frame()));
    assert_eq!(Options::empty().bits, 0);
    assert_eq!(Response::active().union(Response::change()).bits, 5);
    assert!(!Response::empty().contains(Response::submit()));
}

#[test]
fn layout_new_starts_at_body() {
    let l = Layout::new(Rect::new(10, 20, 100, 50), Vec2::new(3, 4));
    assert_eq!(l.body, Rect::new(7, 16, 100, 50));
    assert_eq!(l.position, Vec2::new(0, 0));
    assert_eq!(l.items, 1);
    assert_eq!(l.item_index, 0);
    assert_eq!(l.maximum, Vec2::new(-0x1000000, -0x1000000));
    assert_eq!(l.indent, 0);
}

#[test]
fn layout_default_placement_uses_default_size() {
    let mut l = Layout::new(Rect::new(0, 0, 200, 100), Vec2::new(0, 0));
    let r = l.next(Vec2::new(68, 10), 4);
    assert_eq!(r, Rect::new(0, 0, 76, 18));
    let r2 = l.next(Vec2::new(68, 10), 4);
    assert_eq!(r2, Rect::new(0, 22, 76, 18));
}

#[test]
fn layout_row_places_side_by_side() {
    let mut l = Layout::new(Rect::new(0, 0, 200, 100), Vec2::new(0, 0));
    l.row(2, &[50, -1], 20);
    let a = l.next(Vec2::new(68, 10), 4);
    let b = l.next(Vec2::new(68, 10), 4);
    assert_eq!(a, Rect::new(0, 0, 50, 20));
    assert_eq!(b, Rect::new(54, 0, 146, 20));
    let c = l.next(Vec2::new(68, 10), 4);
    assert_eq!(c.x, 0);
    assert_eq!(c.y, 24);
}

#[test]
fn layout_row_keeps_widths_beyond_given() {
    let mut l = Layout::new(Rect::new(0, 0, 200, 100), Vec2::new(0, 0));
    l.row(3, &[10, 20, 30], 0);
    l.row(3, &[40], 0);
    assert_eq!(&l.widths[0..3], &[40, 20, 30]);
    assert_eq!(l.items, 3);
}

#[test]
fn layout_set_next_absolute_and_relative() {
    let mut l = Layout::new(Rect::new(10, 10, 200, 100), Vec2::new(0, 0));
    l.set_next(Rect::new(1, 2, 3, 4), true);
    assert_eq!(l.next_type, NextType::Absolute);
    assert_eq!(l.next(Vec2::new(68, 10), 4), Rect::new(1, 2, 3, 4));
    assert_eq!(l.next_type, NextType::Unset);
    l.set_next(Rect::new(1, 2, 3, 4), false);
    assert_eq!(l.next(Vec2::new(68, 10), 4), Rect::new(11, 12, 3, 4));
}

#[test]
fn layout_content_size_tracks_extent() {
    let mut l = Layout::new(Rect::new(0, 0, 200, 100), Vec2::new(0, 0));
    l.row(1, &[30], 15);
    l.next(Vec2::new(68, 10), 4);
    assert_eq!(l.content_size(), Vec2::new(30, 15));
}

#[test]
fn layout_track_records_placement() {
    let mut l = Layout::new(Rect::new(10, 10, 200, 100), Vec2::new(0, 0));
    l.track(Rect::new(20, 30, 40, 15), 4);
    assert_eq!(l.position.x, 20 - 10 + 40 + 4);
    assert_eq!(l.next_row, 30 - 10 + 15 + 4);
    assert_eq!(l.maximum, Vec2::new(60, 45));
    assert_eq!(l.content_size(), Vec2::new(50, 35));
}

#[test]
fn whole_row_is_laid_out_side_by_side() {
    let mut l = Layout::new(Rect::new(7, 3, 300, 100), Vec2::new(0, 0));
    l.indent = 5;
    l.row(3, &[10, 20, 30], 15);
    assert_eq!(l.size.y, 15);
    let a = l.next(Vec2::new(68, 10), 4);
    let b = l.next(Vec2::new(68, 10), 4);
    let c = l.next(Vec2::new(68, 10), 4);
    assert_eq!(a, Rect::new(12, 3, 10, 15));
    assert_eq!(b, Rect::new(26, 3, 20, 15));
    assert_eq!(c, Rect::new(50, 3, 30, 15));
}

#[test]
fn scrolled_layout_is_a_shifted_copy() {
    let body = Rect::new(10, 20, 200, 100);
    let scroll = Vec2::new(3, 40);
    let mut plain = Layout::new(body, Vec2::new(0, 0));
    let mut scrolled = Layout::new(body, scroll);
    plain.row(2, &[50, -1], 20);
    scrolled.row(2, &[50, -1], 20);
    for _ in 0..3 {
        let r0 = plain.next(Vec2::new(68, 10), 4);
        let r1 = scrolled.next(Vec2::new(68, 10), 4);
        assert_eq!(r1, Rect::new(r0.x - scroll.x, r0.y - scroll.y, r0.w, r0.h));
    }
    plain.set_next(Rect::new(1, 2, 3, 4), false);
    scrolled.set_next(Rect::new(1, 2, 3, 4), false);
    let r0 = plain.next(Vec2::new(68, 10), 4);
    let r1 = scrolled.next(Vec2::new(68, 10), 4);
    assert_eq!(r1, Rect::new(r0.x - scroll.x, r0.y - scroll.y, r0.w, r0.h));
    assert_eq!(plain.content_size(), scrolled.content_size());
}

#[test]
fn content_size_is_the_furthest_edges_reached() {
    let body = Rect::new(10, 20, 200, 100);
    let mut l = Layout::new(body, Vec2::new(0, 0));
    let mut right = i32::MIN;
    let mut bottom = i32::MIN;
    l.row(2, &[30, 50], 15);
    for _ in 0..3 {
        let r = l.next(Vec2::new(68, 10), 4);
        right = right.max(r.x + r.w);
        bottom = bottom.max(r.y + r.h);
    }
    l.set_next(Rect::new(120, 5, 10, 10), false);
    let r = l.next(Vec2::new(68, 10), 4);
    right = right.max(r.x + r.w);
    bottom = bottom.max(r.y + r.h);
    assert_eq!(l.content_size(), Vec2::new(right - body.x, bottom - body.y));
    assert_eq!(l.content_size(), Vec2::new(130, 34));
}
