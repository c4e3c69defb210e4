use uvea::atlas::Atlas;
use uvea::pool::Pool;

#[test]
fn pool_inserts_and_finds() {
    let mut p: Pool<u32, 3> = Pool::new(7);
    assert_eq!(p.get_index(42), None);
    let (i, item) = p.get_or_insert(42, 1);
    *item = 99;
    assert_eq!(p.get_index(42), Some(i));
    assert_eq!(p.get(42), Some(&99));
    assert!(p.update(42, 5));
    assert!(!p.update(43, 5));
}

#[test]
fn pool_replaces_least_recent() {
    let mut p: Pool<u32, 2> = Pool::new(0);
    let (a, _) = p.get_or_insert(1, 10);
    let (b, _) = p.get_or_insert(2, 20);
    assert_ne!(a, b);
    p.update(1, 30);
    let (c, _) = p.get_or_insert(3, 40);
    assert_eq!(c, b);
    assert_eq!(p.get_index(2), None);
    assert_eq!(p.get_index(1), Some(a));
}

#[test]
fn atlas_new_is_blank() {
    let a = Atlas::new(4);
    assert_eq!(a.size, 4);
    assert_eq!(a.pixels.len(), 64);
    assert!(a.pixels.iter().all(|&p| p == 0));
    assert!(!a.dirty);
}

#[test]
fn atlas_allocates_in_rows() {
    let mut a = Atlas::new(16);
    assert_eq!(a.allocate(4, 3), Some((0, 0)));
    assert_eq!(a.allocate(4, 5), Some((5, 0)));
    assert_eq!(a.allocate(8, 2), Some((0, 6)));
    assert_eq!(a.allocate(4, 20), None);
}

#[test]
fn atlas_full_gives_none() {
    let mut a = Atlas::new(8);
    assert_eq!(a.allocate(6, 6), Some((0, 0)));
    assert_eq!(a.allocate(6, 6), None);
}

#[test]
fn atlas_blit_alpha_writes_white_with_alpha() {
    let mut a = Atlas::new(4);
    a.blit_alpha(1, 1, 2, 1, &[10, 20]);
    let off = (1 * 4 + 1) * 4;
    assert_eq!(&a.pixels[off..off + 8], &[255, 255, 255, 10, 255, 255, 255, 20]);
    assert!(a.dirty);
    assert_eq!(a.pixels[0], 0);
}

#[test]
fn atlas_blit_rgba_copies_rows() {
    let mut a = Atlas::new(4);
    let src: Vec<u8> = (0u8..16).collect();
    a.blit_rgba(2, 0, 1, 2, &src, 8);
    assert_eq!(&a.pixels[8..12], &[0, 1, 2, 3]);
    assert_eq!(&a.pixels[24..28], &[8, 9, 10, 11]);
    assert!(a.dirty);
}

#[test]
fn atlas_reset_clears() {
    let mut a = Atlas::new(4);
    a.allocate(2, 2);
    a.blit_alpha(0, 0, 1, 1, &[5]);
    a.reset();
    assert!(a.pixels.iter().all(|&p| p == 0));
    assert_eq!(a.allocate(2, 2), Some((0, 0)));
    assert!(a.dirty);
}

#[test]
fn atlas_any_two_allocations_keep_their_gutters_apart() {
    let mut a = Atlas::new(32);
    let sizes: [(u32, u32); 8] = [(5, 3), (7, 9), (10, 2), (3, 3), (20, 4), (1, 1), (6, 6), (9, 2)];
    let mut placed: Vec<(u32, u32, u32, u32)> = Vec::new();
    for (w, h) in sizes {
        if let Some((x, y)) = a.allocate(w, h) {
            placed.push((x, y, w, h));
        }
    }
    assert!(placed.len() >= 6);
    for i in 0..placed.len() {
        for j in 0..placed.len() {
            if i != j {
                let (x1, y1, w1, h1) = placed[i];
                let (x2, y2, w2, h2) = placed[j];
                assert!(x1 + w1 + 1 <= x2 || x2 + w2 + 1 <= x1 || y1 + h1 + 1 <= y2 || y2 + h2 + 1 <= y1);
            }
        }
    }
}
