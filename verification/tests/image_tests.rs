use rt1we::image::{flipv, ImageRGBA};
use rt1we::ppm::{ppmread, ppmwrite};

#[test]
fn test_new_image_is_dark_gray() {
    let w = 10usize;
    let h = 10usize;
    let im = ImageRGBA::new(w, h);

    for j in 0..h {
        for i in 0..w {
            let (r, g, b, a) = im.at(i, j);
            assert_eq!(r, 10);
            assert_eq!(g, 10);
            assert_eq!(b, 10);
            assert_eq!(a, 255);

            let px = im.at_u32(i, j);
            assert_eq!(px, 0x0A0A0AFF)
        }
    }
}

#[test]
fn test_can_put_pixel_as_u32() {
    let w = 10usize;
    let h = 10usize;
    let mut im = ImageRGBA::new(w, h);

    im.put_u32(5, 5, 0xFF0000FF);

    let (r, g, b, a) = im.at(5, 5);
    assert_eq!(r, 255);
    assert_eq!(g, 0);
    assert_eq!(b, 0);
    assert_eq!(a, 255);
}

#[test]
fn test_can_put_pixel_as_u8() {
    let w = 10usize;
    let h = 10usize;
    let mut im = ImageRGBA::new(w, h);

    im.put(5, 5, 255, 0, 0, 255);

    let (r, g, b, a) = im.at(5, 5);
    assert_eq!(r, 255);
    assert_eq!(g, 0);
    assert_eq!(b, 0);
    assert_eq!(a, 255);
}

#[test]
fn test_flipv() {
    let mut im = ImageRGBA::new(3, 3);

    im.put_u32(0, 0, 0x000001ff);
    im.put_u32(1, 0, 0x000002ff);
    im.put_u32(2, 0, 0x000003ff);
    im.put_u32(0, 1, 0x000004ff);
    im.put_u32(1, 1, 0x000005ff);
    im.put_u32(2, 1, 0x000006ff);
    im.put_u32(0, 2, 0x000007ff);
    im.put_u32(1, 2, 0x000008ff);
    im.put_u32(2, 2, 0x000009ff);

    let im_flipped = flipv(&im);
    assert_eq!(im_flipped.at_u32(0, 0), 0x000007ff);
    assert_eq!(im_flipped.at_u32(1, 0), 0x000008ff);
    assert_eq!(im_flipped.at_u32(2, 0), 0x000009ff);
    assert_eq!(im_flipped.at_u32(0, 1), 0x000004ff);
    assert_eq!(im_flipped.at_u32(1, 1), 0x000005ff);
    assert_eq!(im_flipped.at_u32(2, 1), 0x000006ff);
    assert_eq!(im_flipped.at_u32(0, 2), 0x000001ff);
    assert_eq!(im_flipped.at_u32(1, 2), 0x000002ff);
    assert_eq!(im_flipped.at_u32(2, 2), 0x000003ff);
}

#[test]
fn test_read_write_roundtrip() {
    let mut im = ImageRGBA::new(5, 3);
    im.put_u32(2, 2, 0x0F0A0AFF);

    let bytes = ppmwrite(&im);

    let im_r = ppmread(&bytes).expect("the writer's output reads back");
    let count = im.height * im.width * 4;
    for i in 0..count {
        assert_eq!(im.pixels[i], im_r.pixels[i]);
    }
}

#[test]
fn test_ppm_text_shape() {
    let im = ImageRGBA::new(2, 1);
    let bytes = ppmwrite(&im);
    assert_eq!(bytes, b"P3\n2 1\n255\n10 10 10\n10 10 10\n".to_vec());
}

#[test]
fn test_ppm_roundtrip_resets_alpha() {
    let mut im = ImageRGBA::new(2, 2);
    im.put(1, 0, 1, 2, 3, 7);

    let im_r = ppmread(&ppmwrite(&im)).expect("the writer's output reads back");
    assert_eq!(im_r.at(1, 0), (1, 2, 3, 255));
}

#[test]
fn test_ppmread_rejects_bad_magic() {
    assert!(ppmread(&b"P6\n1 1\n255\n0 0 0\n".to_vec()).is_none());
}

#[test]
fn test_ppmread_rejects_channel_over_255() {
    assert!(ppmread(&b"P3\n1 1\n255\n0 300 0\n".to_vec()).is_none());
}

#[test]
fn test_ppmread_rejects_truncated_body() {
    assert!(ppmread(&b"P3\n2 1\n255\n0 0 0\n".to_vec()).is_none());
}

#[test]
fn test_ppmread_rejects_overlong_number() {
    assert!(ppmread(&b"P3\n18446744073709551616 1\n255\n0 0 0\n".to_vec()).is_none());
}

#[test]
fn test_ppmread_accepts_zero_sized_image() {
    let im = ppmread(&b"P3\n0 0\n255\n".to_vec()).expect("an empty raster is valid");
    assert_eq!(im.width, 0);
    assert_eq!(im.height, 0);
    assert_eq!(im.pixels.len(), 0);
}
