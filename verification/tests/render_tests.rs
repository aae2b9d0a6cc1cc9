use std::collections::HashMap;

use iris::document::Document;
use iris::image::RgbaImage;
use iris::object::{CropData, ImageData, ObjectKind, StackObject};
use iris::render::{
    composite, composite_supported, crop_after_objects, crop_data_rect, image_to_pixmap,
    pixmap_size_fits, pixmap_to_straight_rgba, IntRect,
};
use tiny_skia::PremultipliedColorU8;

fn crop(x: f32, y: f32, w: f32, h: f32) -> ObjectKind {
    ObjectKind::Crop(CropData { x: x.to_bits(), y: y.to_bits(), width: w.to_bits(), height: h.to_bits() })
}

fn placed(x: f32, y: f32) -> ObjectKind {
    ObjectKind::Image(ImageData { x: x.to_bits(), y: y.to_bits() })
}

/// A 2 x 2 opaque image: red, green / blue, white.
fn quad() -> RgbaImage {
    let bytes = vec![255, 0, 0, 255, 0, 255, 0, 255, 0, 0, 255, 255, 255, 255, 255, 255];
    RgbaImage::from_raw(2, 2, bytes).unwrap()
}

fn doc(objects: Vec<StackObject>) -> Document {
    let mut document = Document::new("test", 2, 2);
    document.objects = objects;
    document
}

#[test]
fn int_rect_from_xywh_matches_tiny_skia() {
    let cases = [
        (0, 0, 1, 1),
        (0, 0, 0, 1),
        (0, 0, 1, 0),
        (i32::MAX, 0, 1, 1),
        (i32::MAX - 1, 0, 1, 1),
        (i32::MIN, i32::MIN, u32::MAX, 1),
        (-5, -5, i32::MAX as u32, 3),
        (0, 0, i32::MAX as u32 + 1, 1),
    ];
    for (x, y, w, h) in cases {
        let ours = IntRect::from_xywh(x, y, w, h).map(|r| (r.x, r.y, r.width, r.height));
        let theirs = tiny_skia::IntRect::from_xywh(x, y, w, h).map(|r| (r.x(), r.y(), r.width(), r.height()));
        assert_eq!(ours, theirs, "{x} {y} {w} {h}");
    }
}

#[test]
fn pixmap_size_fits_matches_tiny_skia() {
    for (w, h) in [(1, 1), (0, 1), (1, 0), (536_870_911, 1), (536_870_912, 1), (100, 100)] {
        assert_eq!(pixmap_size_fits(w, h), tiny_skia::Pixmap::new(w, h).is_some(), "{w} {h}");
    }
}

#[test]
fn crop_rect_rounds_and_keeps_one_pixel() {
    let data = CropData { x: 0.6f32.to_bits(), y: (-1.4f32).to_bits(), width: 0.2f32.to_bits(), height: 3.5f32.to_bits() };
    assert_eq!(crop_data_rect(&data), Some(IntRect { x: 1, y: -1, width: 1, height: 4 }));
    let negative = CropData { x: 0, y: 0, width: (-7.0f32).to_bits(), height: (-7.0f32).to_bits() };
    assert_eq!(crop_data_rect(&negative), Some(IntRect { x: 0, y: 0, width: 1, height: 1 }));
}

#[test]
fn image_to_pixmap_premultiplies() {
    let image = RgbaImage::from_raw(1, 1, vec![200, 100, 50, 128]).unwrap();
    let pixmap = image_to_pixmap(&image).unwrap();
    assert_eq!(pixmap.data(), &[100, 50, 25, 128]);
    let opaque = RgbaImage::from_raw(1, 1, vec![200, 100, 50, 255]).unwrap();
    assert_eq!(image_to_pixmap(&opaque).unwrap().data(), &[200, 100, 50, 255]);
    let clear = RgbaImage::from_raw(1, 1, vec![200, 100, 50, 0]).unwrap();
    assert_eq!(image_to_pixmap(&clear).unwrap().data(), &[0, 0, 0, 0]);
}

#[test]
fn image_to_pixmap_refuses_empty_images() {
    let image = RgbaImage::from_raw(0, 3, Vec::new()).unwrap();
    assert!(image_to_pixmap(&image).is_none());
}

#[test]
fn straight_rgba_demultiplies_like_tiny_skia() {
    let image = RgbaImage::from_raw(2, 1, vec![200, 100, 50, 128, 9, 8, 7, 255]).unwrap();
    let pixmap = image_to_pixmap(&image).unwrap();
    let straight = pixmap_to_straight_rgba(&pixmap);
    let c = PremultipliedColorU8::from_rgba(100, 50, 25, 128).unwrap().demultiply();
    assert_eq!(straight, vec![c.red(), c.green(), c.blue(), c.alpha(), 9, 8, 7, 255]);
    assert_eq!(straight[3], 128);
}

#[test]
fn composite_of_bare_base_is_the_base() {
    let base = quad();
    let out = composite(&doc(Vec::new()), &base, &HashMap::new(), true);
    assert_eq!((out.width(), out.height()), (2, 2));
    assert_eq!(out.data(), base.data().as_slice());
}

#[test]
fn composite_of_empty_base_is_one_transparent_pixel() {
    let base = RgbaImage::from_raw(0, 0, Vec::new()).unwrap();
    let out = composite(&doc(Vec::new()), &base, &HashMap::new(), true);
    assert_eq!((out.width(), out.height()), (1, 1));
    assert_eq!(out.data(), &[0, 0, 0, 0]);
}

#[test]
fn crop_clips_the_composite() {
    let base = quad();
    let document = doc(vec![StackObject::new("Crop", crop(1.0, 1.0, 1.0, 1.0))]);
    let out = composite(&document, &base, &HashMap::new(), true);
    assert_eq!((out.width(), out.height()), (1, 1));
    assert_eq!(out.data(), &[255, 255, 255, 255]);
}

#[test]
fn crop_is_skipped_when_not_applied() {
    let base = quad();
    let document = doc(vec![StackObject::new("Crop", crop(1.0, 1.0, 1.0, 1.0))]);
    let out = composite(&document, &base, &HashMap::new(), false);
    assert_eq!((out.width(), out.height()), (2, 2));
    assert_eq!(out.data(), base.data().as_slice());
}

#[test]
fn hidden_crop_does_not_clip() {
    let base = quad();
    let mut object = StackObject::new("Crop", crop(1.0, 1.0, 1.0, 1.0));
    object.visible = false;
    let document = doc(vec![object]);
    let out = composite(&document, &base, &HashMap::new(), true);
    assert_eq!((out.width(), out.height()), (2, 2));
}

#[test]
fn last_visible_crop_wins() {
    let base = quad();
    let first = StackObject::new("Crop", crop(0.0, 0.0, 1.0, 1.0));
    let second = StackObject::new("Crop", crop(1.0, 0.0, 1.0, 2.0));
    let mut hidden = StackObject::new("Crop", crop(0.0, 1.0, 2.0, 1.0));
    hidden.visible = false;
    let document = doc(vec![first, second, hidden]);
    assert_eq!(crop_after_objects(&document.objects, 2, 2), Some(IntRect { x: 1, y: 0, width: 1, height: 2 }));
    let out = composite(&document, &base, &HashMap::new(), true);
    assert_eq!((out.width(), out.height()), (1, 2));
    assert_eq!(out.data(), &[0, 255, 0, 255, 255, 255, 255, 255]);
}

#[test]
fn invalid_crop_keeps_the_previous_one() {
    let first = StackObject::new("Crop", crop(1.0, 1.0, 1.0, 1.0));
    let overflowing = StackObject::new("Crop", crop(2147483520.0, 0.0, 1.0e9, 1.0));
    let document = doc(vec![first, overflowing]);
    assert_eq!(crop_after_objects(&document.objects, 2, 2), Some(IntRect { x: 1, y: 1, width: 1, height: 1 }));
}

#[test]
fn pasted_image_is_drawn_at_its_position() {
    let base = quad();
    let object = StackObject::new("Pasted Image", placed(1.0, 0.0));
    let mut assets = HashMap::new();
    assets.insert(object.id, RgbaImage::from_raw(1, 1, vec![1, 2, 3, 255]).unwrap());
    let document = doc(vec![object]);
    let out = composite(&document, &base, &assets, true);
    assert_eq!(out.data(), &[255, 0, 0, 255, 1, 2, 3, 255, 0, 0, 255, 255, 255, 255, 255, 255]);
}

#[test]
fn image_without_pixels_draws_nothing() {
    let base = quad();
    let document = doc(vec![StackObject::new("Pasted Image", placed(0.0, 0.0))]);
    let out = composite(&document, &base, &HashMap::new(), true);
    assert_eq!(out.data(), base.data().as_slice());
}

#[test]
fn hidden_image_draws_nothing() {
    let base = quad();
    let mut object = StackObject::new("Pasted Image", placed(0.0, 0.0));
    object.visible = false;
    let mut assets = HashMap::new();
    assets.insert(object.id, RgbaImage::from_raw(1, 1, vec![1, 2, 3, 255]).unwrap());
    let with_hidden = composite(&doc(vec![object]), &base, &assets, true);
    let without = composite(&doc(Vec::new()), &base, &assets, true);
    assert_eq!(with_hidden.data(), without.data());
}

#[test]
fn crop_position_in_the_stack_does_not_matter() {
    let base = quad();
    let image = StackObject::new("Pasted Image", placed(0.0, 1.0));
    let mut assets = HashMap::new();
    assets.insert(image.id, RgbaImage::from_raw(1, 1, vec![7, 7, 7, 255]).unwrap());
    let c = StackObject::new("Crop", crop(0.0, 1.0, 2.0, 1.0));
    let below = composite(&doc(vec![c.clone(), image.clone()]), &base, &assets, true);
    let above = composite(&doc(vec![image, c]), &base, &assets, true);
    assert_eq!(below.data(), above.data());
    assert_eq!(below.data(), &[7, 7, 7, 255, 255, 255, 255, 255]);
}

#[test]
fn later_images_cover_earlier_ones() {
    let base = quad();
    let a = StackObject::new("Pasted Image", placed(0.0, 0.0));
    let b = StackObject::new("Pasted Image", placed(0.0, 0.0));
    let mut assets = HashMap::new();
    assets.insert(a.id, RgbaImage::from_raw(1, 1, vec![1, 1, 1, 255]).unwrap());
    assets.insert(b.id, RgbaImage::from_raw(1, 1, vec![2, 2, 2, 255]).unwrap());
    let out = composite(&doc(vec![a, b]), &base, &assets, false);
    assert_eq!(&out.data()[..4], &[2, 2, 2, 255]);
}

#[test]
fn oversized_crop_is_not_supported() {
    let base = quad();
    let document = doc(vec![StackObject::new("Crop", crop(0.0, 0.0, 1.0e9, 1.0))]);
    assert!(!composite_supported(&document, &base, &HashMap::new(), true));
    assert!(composite_supported(&document, &base, &HashMap::new(), false));
    assert!(composite_supported(&doc(Vec::new()), &base, &HashMap::new(), true));
}

#[test]
fn crop_at_the_far_left_is_not_supported() {
    let base = quad();
    let document = doc(vec![StackObject::new("Crop", crop(-3.0e9, 0.0, 1.0, 1.0))]);
    assert!(!composite_supported(&document, &base, &HashMap::new(), true));
}

/// A 3 x 3 opaque image whose pixels all differ.
fn grid() -> RgbaImage {
    let mut bytes = Vec::new();
    for k in 0..9u8 {
        bytes.extend_from_slice(&[10 * k, 100 + k, 200 - k, 255]);
    }
    RgbaImage::from_raw(3, 3, bytes).unwrap()
}

fn pixel(data: &[u8], width: usize, i: usize, j: usize) -> [u8; 4] {
    let k = 4 * (j * width + i);
    [data[k], data[k + 1], data[k + 2], data[k + 3]]
}

#[test]
fn clipped_output_holds_the_uncropped_pixels_at_the_crop_offset() {
    let base = grid();
    let document = Document { objects: vec![StackObject::new("Crop", crop(1.0, 0.0, 2.0, 2.0))], ..Document::new("t", 3, 3) };
    let full = composite(&document, &base, &HashMap::new(), false);
    let out = composite(&document, &base, &HashMap::new(), true);
    assert_eq!((out.width(), out.height()), (2, 2));
    for j in 0..2 {
        for i in 0..2 {
            assert_eq!(pixel(out.data(), 2, i, j), pixel(full.data(), 3, i + 1, j));
        }
    }
}

#[test]
fn clip_window_outside_the_canvas_is_transparent() {
    let base = quad();
    let document = doc(vec![StackObject::new("Crop", crop(1.0, 1.0, 2.0, 2.0))]);
    let out = composite(&document, &base, &HashMap::new(), true);
    assert_eq!((out.width(), out.height()), (2, 2));
    assert_eq!(out.data(), &[255, 255, 255, 255, 0, 0, 0, 0, 0, 0, 0, 0, 0, 0, 0, 0]);
    let left = doc(vec![StackObject::new("Crop", crop(-1.0, 0.0, 2.0, 1.0))]);
    let out = composite(&left, &base, &HashMap::new(), true);
    assert_eq!(out.data(), &[0, 0, 0, 0, 255, 0, 0, 255]);
}

#[test]
fn without_a_visible_crop_clipping_changes_nothing() {
    let base = grid();
    let image = StackObject::new("Pasted Image", placed(1.0, 1.0));
    let mut assets = HashMap::new();
    assets.insert(image.id, RgbaImage::from_raw(1, 1, vec![40, 30, 20, 128]).unwrap());
    let mut hidden = StackObject::new("Crop", crop(0.0, 0.0, 1.0, 1.0));
    hidden.visible = false;
    let document = Document { objects: vec![hidden, image], ..Document::new("t", 3, 3) };
    let clipped = composite(&document, &base, &assets, true);
    let full = composite(&document, &base, &assets, false);
    assert_eq!((clipped.width(), clipped.height()), (full.width(), full.height()));
    assert_eq!(clipped.data(), full.data());
}

#[test]
fn leaving_out_every_hidden_object_changes_nothing() {
    let base = grid();
    let shown = StackObject::new("Pasted Image", placed(0.0, 0.0));
    let mut hidden_image = StackObject::new("Pasted Image", placed(1.0, 1.0));
    hidden_image.visible = false;
    let mut hidden_crop = StackObject::new("Crop", crop(0.0, 0.0, 1.0, 1.0));
    hidden_crop.visible = false;
    let mut assets = HashMap::new();
    assets.insert(shown.id, RgbaImage::from_raw(1, 1, vec![5, 6, 7, 255]).unwrap());
    assets.insert(hidden_image.id, RgbaImage::from_raw(1, 1, vec![9, 9, 9, 255]).unwrap());
    let all = Document { objects: vec![hidden_crop, shown.clone(), hidden_image], ..Document::new("t", 3, 3) };
    let visible = Document { objects: vec![shown], ..Document::new("t", 3, 3) };
    for apply_crop in [false, true] {
        let a = composite(&all, &base, &assets, apply_crop);
        let b = composite(&visible, &base, &assets, apply_crop);
        assert_eq!((a.width(), a.height()), (b.width(), b.height()));
        assert_eq!(a.data(), b.data());
    }
}

#[test]
fn crops_added_or_edited_leave_the_unclipped_composite() {
    let base = grid();
    let image = StackObject::new("Pasted Image", placed(2.0, 0.0));
    let mut assets = HashMap::new();
    assets.insert(image.id, RgbaImage::from_raw(1, 1, vec![1, 2, 3, 255]).unwrap());
    let plain = Document { objects: vec![image.clone()], ..Document::new("t", 3, 3) };
    let cropped = Document {
        objects: vec![StackObject::new("Crop", crop(1.0, 1.0, 1.0, 1.0)), image, StackObject::new("Crop", crop(0.0, 0.0, 2.0, 3.0))],
        ..Document::new("t", 3, 3)
    };
    let a = composite(&plain, &base, &assets, false);
    let b = composite(&cropped, &base, &assets, false);
    assert_eq!((a.width(), a.height()), (3, 3));
    assert_eq!(a.data(), b.data());
}

#[test]
fn straight_alpha_round_trip_stays_within_the_rounding_bound() {
    let mut bytes = Vec::new();
    for (c, a) in [(200u8, 128u8), (255, 1), (7, 3), (90, 255), (77, 0), (1, 254)] {
        bytes.extend_from_slice(&[c, c / 2, c / 3, a]);
    }
    let image = RgbaImage::from_raw(6, 1, bytes.clone()).unwrap();
    let back = pixmap_to_straight_rgba(&image_to_pixmap(&image).unwrap());
    assert_eq!(back.len(), bytes.len());
    for p in 0..6 {
        let a = bytes[4 * p + 3];
        assert_eq!(back[4 * p + 3], a);
        for k in 0..3 {
            let (c, d) = (bytes[4 * p + k] as u32, back[4 * p + k] as u32);
            if a == 255 {
                assert_eq!(c, d);
            } else if a == 0 {
                assert_eq!(d, 0);
            } else {
                assert!(d <= c && (c - d) * (a as u32) < 255 + a as u32, "{p} {k}");
            }
        }
    }
}

#[test]
fn transparent_black_demultiplies_to_zero() {
    let pixmap = tiny_skia::Pixmap::new(2, 3).unwrap();
    let straight = pixmap_to_straight_rgba(&pixmap);
    assert_eq!(straight, vec![0u8; 24]);
}

/// A `w` x `h` opaque image whose pixel (i, j) is (i % 251, j % 251, (i + j) % 256, 255).
fn gradient(w: u32, h: u32) -> RgbaImage {
    let mut bytes = Vec::with_capacity((4 * w * h) as usize);
    for j in 0..h {
        for i in 0..w {
            bytes.extend_from_slice(&[(i % 251) as u8, (j % 251) as u8, ((i + j) % 256) as u8, 255]);
        }
    }
    RgbaImage::from_raw(w, h, bytes).unwrap()
}

#[test]
fn wide_canvas_without_a_crop_is_not_changed_by_clipping() {
    let base = RgbaImage::from_pixel(8192, 1, [0, 0, 0, 0]);
    let document = Document { objects: Vec::new(), ..Document::new("t", 8192, 1) };
    let clipped = composite(&document, &base, &HashMap::new(), true);
    let full = composite(&document, &base, &HashMap::new(), false);
    assert_eq!((clipped.width(), clipped.height()), (8192, 1));
    assert_eq!(clipped.data(), full.data());
    let base = gradient(9000, 2);
    let document = Document { objects: Vec::new(), ..Document::new("t", 9000, 2) };
    let clipped = composite(&document, &base, &HashMap::new(), true);
    assert_eq!(clipped.data(), base.data().as_slice());
}

#[test]
fn wide_crop_window_holds_the_uncropped_pixels() {
    let base = gradient(9000, 2);
    let document = Document {
        objects: vec![StackObject::new("Crop", crop(-100.0, 1.0, 9050.0, 2.0))],
        ..Document::new("t", 9000, 2)
    };
    let full = composite(&document, &base, &HashMap::new(), false);
    let out = composite(&document, &base, &HashMap::new(), true);
    assert_eq!((out.width(), out.height()), (9050, 2));
    for j in 0..2usize {
        for i in 0..9050usize {
            let (x, y) = (i as i64 - 100, j as i64 + 1);
            let expected = if (0..9000).contains(&x) && (0..2).contains(&y) {
                pixel(full.data(), 9000, x as usize, y as usize)
            } else {
                [0, 0, 0, 0]
            };
            assert_eq!(pixel(out.data(), 9050, i, j), expected, "{i} {j}");
        }
    }
}

#[test]
fn later_opaque_image_covers_earlier_ones_across_tiles() {
    let base = gradient(9000, 3);
    let a = StackObject::new("Pasted Image", placed(8185.0, 0.0));
    let b = StackObject::new("Pasted Image", placed(8188.0, 1.0));
    let mut assets = HashMap::new();
    assets.insert(a.id, RgbaImage::from_pixel(8, 2, [10, 20, 30, 255]));
    assets.insert(b.id, RgbaImage::from_pixel(6, 2, [40, 50, 60, 255]));
    let document = Document { objects: vec![a, b], ..Document::new("t", 9000, 3) };
    let out = composite(&document, &base, &assets, false);
    for j in 0..3usize {
        for i in 8180..8200usize {
            let expected = if (8188..8194).contains(&i) && (1..3).contains(&j) {
                [40, 50, 60, 255]
            } else if (8185..8193).contains(&i) && j < 2 {
                [10, 20, 30, 255]
            } else {
                pixel(base.data(), 9000, i, j)
            };
            assert_eq!(pixel(out.data(), 9000, i, j), expected, "{i} {j}");
        }
    }
}
