use renderer::geometry::Size;
use renderer::rect_atlas::{coverage_to_white_rgba, AtlasRect, TextureAtlas};

fn rect(x: u32, y: u32, width: u32, height: u32) -> AtlasRect {
    AtlasRect::new(x, y, width, height)
}

fn overlap(a: &AtlasRect, b: &AtlasRect) -> bool {
    a.x < b.x + b.width && b.x < a.x + a.width && a.y < b.y + b.height && b.y < a.y + a.height
}

#[test]
fn can_fit_compares_both_sides() {
    let r = rect(0, 0, 4, 2);
    assert!(r.can_fit(4, 2));
    assert!(!r.can_fit(5, 1));
    assert!(!r.can_fit(1, 3));
}

#[test]
fn split_leaves_right_bottom_and_corner() {
    let r = rect(1, 1, 4, 3);
    assert_eq!(r.split(2, 1), vec![rect(3, 1, 2, 1), rect(1, 2, 4, 2), rect(3, 2, 2, 2)]);
    assert_eq!(r.split(4, 3), vec![]);
    assert_eq!(r.split(4, 1), vec![rect(1, 2, 4, 2)]);
}

#[test]
fn new_atlas_is_one_free_square() {
    let atlas = TextureAtlas::new(8);
    assert_eq!(atlas.size(), Size::new(8, 8));
    assert_eq!(atlas.free_rectangles(), &[rect(0, 0, 8, 8)]);
}

#[test]
fn smallest_fitting_rectangle_is_chosen() {
    let mut atlas = TextureAtlas::new(8);
    let (r, doublings) = atlas.place(6, 6);
    assert_eq!((r, doublings), (rect(0, 0, 6, 6), 0));
    // Free now: right strip 2x6, bottom strip 8x2, corner 2x2.
    assert_eq!(atlas.free_rectangles(), &[rect(6, 0, 2, 6), rect(0, 6, 8, 2), rect(6, 6, 2, 2)]);
    assert_eq!(atlas.best_rect(2, 2), Some(2));
    let (r, _) = atlas.place(2, 2);
    assert_eq!(r, rect(6, 6, 2, 2));
}

#[test]
fn atlas_doubles_until_the_image_fits() {
    let mut atlas = TextureAtlas::new(2);
    let (r, doublings) = atlas.place(3, 3);
    assert_eq!(doublings, 2);
    assert_eq!(atlas.size(), Size::new(8, 8));
    assert_eq!(r, rect(4, 0, 3, 3));
}

#[test]
fn expand_adds_three_quarters() {
    let mut atlas = TextureAtlas::new(4);
    atlas.expand();
    assert_eq!(atlas.size(), Size::new(8, 8));
    assert_eq!(
        atlas.free_rectangles(),
        &[rect(0, 0, 4, 4), rect(4, 0, 4, 4), rect(0, 4, 4, 4), rect(4, 4, 4, 4)]
    );
}

/// Free rectangles that overlap each other can hand out overlapping places.
#[test]
fn placed_images_can_overlap() {
    let mut atlas = TextureAtlas::new(4);
    let (a, _) = atlas.place(2, 2);
    let (b, _) = atlas.place(4, 2);
    let (c, _) = atlas.place(2, 2);
    let (d, _) = atlas.place(2, 2);
    assert_eq!((a, b, c, d), (rect(0, 0, 2, 2), rect(0, 2, 4, 2), rect(2, 0, 2, 2), rect(2, 2, 2, 2)));
    assert!(overlap(&b, &d));
}

#[test]
fn try_place_refuses_what_can_never_fit() {
    let mut empty = TextureAtlas::new(0);
    assert!(!empty.can_place(1, 1));
    assert_eq!(empty.try_place(1, 1), None);
    let mut big = TextureAtlas::new(16384);
    assert!(!big.can_place(40000, 1));
    assert_eq!(big.try_place(40000, 1), None);
    assert_eq!(big.size(), Size::new(16384, 16384));
    assert!(big.can_place(100, 100));
    assert_eq!(big.try_place(100, 100), Some((rect(0, 0, 100, 100), 0)));
}

#[test]
fn try_place_doubles_like_place() {
    let mut atlas = TextureAtlas::new(2);
    assert!(atlas.can_place(3, 3));
    assert_eq!(atlas.try_place(3, 3), Some((rect(4, 0, 3, 3), 2)));
}

#[test]
fn coverage_becomes_white_with_alpha() {
    assert_eq!(coverage_to_white_rgba(&[0, 128]), vec![255, 255, 255, 0, 255, 255, 255, 128]);
    assert!(coverage_to_white_rgba(&[]).is_empty());
}

#[test]
fn bytes_that_are_no_font_are_refused() {
    let mut atlas = TextureAtlas::new(8);
    assert!(!atlas.load_font("sans", &[0, 1, 2, 3, 4, 5, 6, 7]));
    assert!(atlas.font("sans").is_none());
    assert!(!atlas.load_font("sans", &[]));
    assert_eq!(atlas.size(), Size::new(8, 8));
}
