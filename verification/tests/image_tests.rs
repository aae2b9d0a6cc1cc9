use iris::image::RgbaImage;

#[test]
fn from_pixel_fills_every_pixel() {
    let image = RgbaImage::from_pixel(3, 2, [1, 2, 3, 4]);
    assert_eq!(image.width(), 3);
    assert_eq!(image.height(), 2);
    assert_eq!(image.data().len(), 24);
    for chunk in image.data().chunks(4) {
        assert_eq!(chunk, &[1, 2, 3, 4]);
    }
}

#[test]
fn from_raw_rejects_short_buffers() {
    assert!(RgbaImage::from_raw(2, 2, vec![0; 15]).is_none());
}

#[test]
fn from_raw_takes_exact_buffers() {
    let bytes: Vec<u8> = (0..16).collect();
    let image = RgbaImage::from_raw(2, 2, bytes.clone()).unwrap();
    assert_eq!(image.data(), &bytes);
}

#[test]
fn from_raw_keeps_only_the_pixels_of_long_buffers() {
    let bytes: Vec<u8> = (0..20).collect();
    let image = RgbaImage::from_raw(2, 2, bytes.clone()).unwrap();
    assert_eq!(image.data(), &bytes[..16].to_vec());
}

#[test]
fn from_raw_accepts_empty_images() {
    let image = RgbaImage::from_raw(0, 5, Vec::new()).unwrap();
    assert_eq!(image.data().len(), 0);
}
