use voxel_engine::texture::{Rect, TextureAtlas};

fn overlap(a: &Rect, b: &Rect) -> bool {
    a.x < b.x + b.w && b.x < a.x + a.w && a.y < b.y + b.h && b.y < a.y + a.h
}

#[test]
fn add_returns_sequential_handles() {
    let mut atlas = TextureAtlas::new();
    assert_eq!(atlas.add(10, 30), 0);
    assert_eq!(atlas.add(20, 10), 1);
    assert_eq!(atlas.add(15, 20), 2);
}

#[test]
fn pack_places_rects_without_overlap() {
    let mut atlas = TextureAtlas::new();
    let handles = vec![atlas.add(10, 30), atlas.add(20, 10), atlas.add(15, 20)];
    atlas.pack();
    let rects: Vec<Rect> = handles
        .iter()
        .map(|h| atlas.get_rect(h).unwrap().0)
        .collect();
    for i in 0..rects.len() {
        for j in 0..rects.len() {
            if i != j {
                assert!(!overlap(&rects[i], &rects[j]), "{i} overlaps {j}");
            }
        }
    }
    for r in &rects {
        assert!(r.x + r.w <= 512);
        assert!(r.x >= 0 && r.y >= 0);
    }
    assert_eq!(atlas.width, 512);
}

#[test]
fn pack_sorts_tallest_first_and_walks_shelves() {
    let mut atlas = TextureAtlas::new();
    let h0 = atlas.add(10, 30);
    let h1 = atlas.add(20, 10);
    let h2 = atlas.add(15, 20);
    atlas.pack();
    // tallest first: heights 30, 20, 10 share the first shelf
    assert_eq!(atlas.get_rect(&h0).unwrap().0, Rect { x: 0, y: 0, w: 10, h: 30 });
    assert_eq!(atlas.get_rect(&h2).unwrap().0, Rect { x: 10, y: 0, w: 15, h: 20 });
    assert_eq!(atlas.get_rect(&h1).unwrap().0, Rect { x: 25, y: 0, w: 20, h: 10 });
    assert_eq!(atlas.height, 30);
}

#[test]
fn pack_starts_a_new_shelf_at_the_atlas_width() {
    let mut atlas = TextureAtlas::new();
    let h0 = atlas.add(200, 10);
    let h1 = atlas.add(200, 10);
    let h2 = atlas.add(200, 10);
    atlas.pack();
    assert_eq!(atlas.get_rect(&h0).unwrap().0, Rect { x: 0, y: 0, w: 200, h: 10 });
    assert_eq!(atlas.get_rect(&h1).unwrap().0, Rect { x: 200, y: 0, w: 200, h: 10 });
    // 400 + 200 crosses 512: the third rectangle opens the next shelf
    assert_eq!(atlas.get_rect(&h2).unwrap().0, Rect { x: 0, y: 10, w: 200, h: 10 });
    assert_eq!(atlas.height, 20);
}

#[test]
fn pack_twice_is_idempotent() {
    let mut atlas = TextureAtlas::new();
    let handles = vec![
        atlas.add(10, 30),
        atlas.add(20, 10),
        atlas.add(15, 20),
        atlas.add(149, 108),
        atlas.add(300, 20),
    ];
    atlas.pack();
    let first: Vec<Rect> = handles
        .iter()
        .map(|h| atlas.get_rect(h).unwrap().0)
        .collect();
    let first_size = (atlas.width, atlas.height);
    atlas.pack();
    let second: Vec<Rect> = handles
        .iter()
        .map(|h| atlas.get_rect(h).unwrap().0)
        .collect();
    assert_eq!(first, second);
    assert_eq!(first_size, (atlas.width, atlas.height));
}

#[test]
fn registered_extent_survives_packing() {
    let mut atlas = TextureAtlas::new();
    let early = atlas.add(33, 44);
    atlas.pack();
    let late = atlas.add(55, 66);
    atlas.pack();
    let (r_early, h_early) = atlas.get_rect(&early).unwrap();
    assert_eq!((r_early.w, r_early.h), (33, 44));
    assert_eq!(h_early, early);
    let (r_late, h_late) = atlas.get_rect(&late).unwrap();
    assert_eq!((r_late.w, r_late.h), (55, 66));
    assert_eq!(h_late, late);
}

#[test]
fn get_rect_unknown_handle_is_none() {
    let mut atlas = TextureAtlas::new();
    assert_eq!(atlas.get_rect(&0), None);
    atlas.add(10, 10);
    atlas.pack();
    assert!(atlas.get_rect(&0).is_some());
    assert_eq!(atlas.get_rect(&1), None);
}

#[test]
fn new_atlas_is_empty() {
    let atlas = TextureAtlas::new();
    assert_eq!(atlas.width, 0);
    assert_eq!(atlas.height, 0);
    assert_eq!(atlas.get_rect(&0), None);
}
