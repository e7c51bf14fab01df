use renderer::atlas::{AtlasRegion, LoadError, PackError, TextureAtlas, PADDING};
use renderer::geometry::Size;
use std::io::Cursor;

fn region(x: u32, y: u32, width: u32, height: u32) -> AtlasRegion {
    AtlasRegion { x, y, width, height }
}

fn overlap(a: &AtlasRegion, b: &AtlasRegion) -> bool {
    a.x < b.x + b.width && b.x < a.x + a.width && a.y < b.y + b.height && b.y < a.y + a.height
}

fn png(width: u32, height: u32, pixels: Vec<u8>) -> Vec<u8> {
    let img = image::RgbaImage::from_raw(width, height, pixels).unwrap();
    let mut out = Cursor::new(Vec::new());
    img.write_to(&mut out, image::ImageFormat::Png).unwrap();
    out.into_inner()
}

#[test]
fn first_image_goes_top_left_with_padding() {
    let mut atlas = TextureAtlas::new(Size::new(64, 64));
    assert_eq!(atlas.pack("a", 10, 10), Ok(region(PADDING, PADDING, 10, 10)));
    assert!(atlas.contains("a"));
    assert_eq!(atlas.get_region("a"), Some(region(2, 2, 10, 10)));
    assert_eq!(atlas.used_pixels(), 14 * 14);
}

#[test]
fn images_fill_a_shelf_left_to_right() {
    let mut atlas = TextureAtlas::new(Size::new(64, 64));
    atlas.pack("a", 10, 10).unwrap();
    assert_eq!(atlas.pack("b", 10, 10), Ok(region(16, 2, 10, 10)));
    // A shorter image still fits on the first shelf.
    assert_eq!(atlas.pack("c", 4, 4), Ok(region(30, 2, 4, 4)));
}

#[test]
fn new_shelf_opens_below_when_a_row_is_full() {
    let mut atlas = TextureAtlas::new(Size::new(32, 64));
    atlas.pack("a", 20, 10).unwrap();
    // 24 + 14 > 32: no room on the first shelf.
    assert_eq!(atlas.pack("b", 10, 10), Ok(region(2, 16, 10, 10)));
}

#[test]
fn taller_image_does_not_use_a_low_shelf() {
    let mut atlas = TextureAtlas::new(Size::new(64, 64));
    atlas.pack("low", 10, 4).unwrap();
    assert_eq!(atlas.pack("tall", 10, 20), Ok(region(2, 10, 10, 20)));
}

#[test]
fn packing_a_name_twice_returns_the_first_region() {
    let mut atlas = TextureAtlas::new(Size::new(64, 64));
    let first = atlas.pack("a", 10, 10).unwrap();
    assert_eq!(atlas.pack("a", 30, 30), Ok(first));
    assert_eq!(atlas.used_pixels(), 14 * 14);
}

#[test]
fn image_larger_than_atlas_is_refused() {
    let mut atlas = TextureAtlas::new(Size::new(64, 64));
    assert_eq!(
        atlas.pack("big", 61, 10),
        Err(PackError::TooLarge { width: 61, height: 10, atlas_width: 64, atlas_height: 64 })
    );
    assert!(!atlas.contains("big"));
}

#[test]
fn atlas_without_room_is_full() {
    let mut atlas = TextureAtlas::new(Size::new(16, 16));
    atlas.pack("a", 10, 10).unwrap();
    assert_eq!(atlas.pack("b", 10, 10), Err(PackError::Full));
    assert_eq!(atlas.get_region("b"), None);
}

#[test]
fn packed_regions_never_overlap() {
    let mut atlas = TextureAtlas::new(Size::new(128, 128));
    let sizes = [(10, 12), (30, 5), (7, 7), (40, 20), (3, 30), (25, 25), (60, 8), (9, 9)];
    let mut placed = Vec::new();
    for (i, (w, h)) in sizes.iter().enumerate() {
        if let Ok(r) = atlas.pack(&format!("img{i}"), *w, *h) {
            assert!(r.x + r.width <= 128 && r.y + r.height <= 128);
            placed.push(r);
        }
    }
    assert!(placed.len() >= 6);
    for i in 0..placed.len() {
        for j in (i + 1)..placed.len() {
            assert!(!overlap(&placed[i], &placed[j]));
        }
    }
}

#[test]
fn atlas_size_is_kept() {
    let atlas = TextureAtlas::new(Size::new(256, 128));
    assert_eq!(atlas.size(), Size::new(256, 128));
}

#[test]
fn load_image_rejects_bytes_that_are_no_image() {
    let mut atlas = TextureAtlas::new(Size::new(64, 64));
    match atlas.load_image("junk", &[1, 2, 3, 4, 5]) {
        Err(LoadError::Decode(msg)) => assert!(!msg.is_empty()),
        other => panic!("unexpected {other:?}"),
    }
    assert!(!atlas.contains("junk"));
}

#[test]
fn load_image_decodes_and_packs() {
    let pixels: Vec<u8> = (0..24).collect();
    let bytes = png(3, 2, pixels.clone());
    let mut atlas = TextureAtlas::new(Size::new(64, 64));
    let (r, data) = atlas.load_image("icon", &bytes).unwrap();
    assert_eq!(r, region(2, 2, 3, 2));
    assert_eq!(data, pixels);
    assert_eq!(atlas.get_region("icon"), Some(r));
}

#[test]
fn load_image_too_large_for_atlas() {
    let bytes = png(20, 1, vec![255; 80]);
    let mut atlas = TextureAtlas::new(Size::new(16, 16));
    assert_eq!(
        atlas.load_image("wide", &bytes),
        Err(LoadError::Pack(PackError::TooLarge { width: 20, height: 1, atlas_width: 16, atlas_height: 16 }))
    );
}

#[test]
fn load_image_reads_other_formats() {
    let pixels: Vec<u8> = (0..16).map(|i| i * 10).collect();
    let img = image::RgbaImage::from_raw(2, 2, pixels.clone()).unwrap();
    let mut out = Cursor::new(Vec::new());
    img.write_to(&mut out, image::ImageFormat::Bmp).unwrap();
    let mut atlas = TextureAtlas::new(Size::new(32, 32));
    let (r, data) = atlas.load_image("bmp", &out.into_inner()).unwrap();
    assert_eq!(r, region(2, 2, 2, 2));
    assert_eq!(data, pixels);
}

#[test]
fn fresh_atlas_uses_no_pixels() {
    let atlas = TextureAtlas::new(Size::new(64, 64));
    assert_eq!(atlas.used_pixels(), 0);
}

#[test]
fn decoded_images_are_placed_or_refused() {
    let mut atlas = TextureAtlas::new(Size::new(64, 64));
    assert_eq!(atlas.place_decoded("bad", Err("no format".to_string())), Err(LoadError::Decode("no format".to_string())));
    assert_eq!(
        atlas.place_decoded("huge", Ok((vec![], u32::MAX, 1))),
        Err(LoadError::Oversized { width: u32::MAX, height: 1 })
    );
    let (r, px) = atlas.place_decoded("ok", Ok((vec![7; 16], 2, 2))).unwrap();
    assert_eq!(r, region(2, 2, 2, 2));
    assert_eq!(px, vec![7; 16]);
    assert_eq!(
        atlas.place_decoded("wide", Ok((vec![0; 400], 100, 1))),
        Err(LoadError::Pack(PackError::TooLarge { width: 100, height: 1, atlas_width: 64, atlas_height: 64 }))
    );
    assert_eq!(atlas.used_pixels(), 36);
}

#[test]
fn packed_images_keep_padding_from_each_other_and_the_edges() {
    let mut atlas = TextureAtlas::new(Size::new(40, 40));
    let mut placed = Vec::new();
    for i in 0..12u32 {
        if let Ok(r) = atlas.pack(&format!("i{i}"), 3 + i % 5, 2 + i % 4) {
            placed.push(r);
        }
    }
    let p = PADDING;
    for r in &placed {
        assert!(r.x >= p && r.y >= p && r.x + r.width + p <= 40 && r.y + r.height + p <= 40);
    }
    for i in 0..placed.len() {
        for j in (i + 1)..placed.len() {
            let (a, b) = (placed[i], placed[j]);
            let apart = a.x + a.width + p <= b.x - p
                || b.x + b.width + p <= a.x - p
                || a.y + a.height + p <= b.y - p
                || b.y + b.height + p <= a.y - p;
            assert!(apart);
        }
    }
}

#[test]
fn used_pixels_stay_within_the_atlas() {
    let mut atlas = TextureAtlas::new(Size::new(50, 30));
    for i in 0..40u32 {
        let _ = atlas.pack(&format!("i{i}"), 1 + i % 7, 1 + i % 5);
        assert!(atlas.used_pixels() <= 50 * 30);
    }
}
