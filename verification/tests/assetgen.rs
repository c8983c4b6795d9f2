use solitaire_quest::assetgen::gen_art::{
    encode_png, make_back_0, make_back_1, make_back_2, make_back_3, make_back_4, make_bg_0,
    make_bg_1, make_bg_2, make_bg_3, make_bg_4, make_face, make_image,
};

fn pixel(img: &[u8; 1024], x: usize, y: usize) -> [u8; 4] {
    let i = (y * 16 + x) * 4;
    [img[i], img[i + 1], img[i + 2], img[i + 3]]
}

#[test]
fn make_image_lays_out_rows_of_rgba() {
    let img = make_image(|x, y| [x as u8, y as u8, (x + y) as u8, 7]);
    assert_eq!(pixel(&img, 0, 0), [0, 0, 0, 7]);
    assert_eq!(pixel(&img, 3, 5), [3, 5, 8, 7]);
    assert_eq!(pixel(&img, 15, 15), [15, 15, 30, 7]);
    assert_eq!(&img[4..8], &[1, 0, 1, 7]);
    assert_eq!(&img[64..68], &[0, 1, 1, 7]);
}

#[test]
fn face_is_solid_ivory() {
    let img = make_face();
    for y in 0..16 {
        for x in 0..16 {
            assert_eq!(pixel(&img, x, y), [0xF8, 0xF8, 0xF0, 0xFF]);
        }
    }
}

#[test]
fn back_patterns() {
    let b0 = make_back_0();
    assert_eq!(pixel(&b0, 7, 1), [0xFF, 0xFF, 0xFF, 40]);
    assert_eq!(pixel(&b0, 7, 2), [0x26, 0x4D, 0x8C, 0xFF]);
    let b1 = make_back_1();
    assert_eq!(pixel(&b1, 1, 0), [0xFF, 0xFF, 0xFF, 40]);
    assert_eq!(pixel(&b1, 1, 1), [0x8C, 0x1A, 0x1A, 0xFF]);
    let b2 = make_back_2();
    assert_eq!(pixel(&b2, 4, 8), [0xFF, 0xFF, 0xFF, 0xFF]);
    assert_eq!(pixel(&b2, 4, 9), [0x0D, 0x66, 0x1A, 0xFF]);
    let b3 = make_back_3();
    assert_eq!(pixel(&b3, 8, 8), [0xFF, 0xFF, 0xFF, 0xFF]);
    assert_eq!(pixel(&b3, 10, 6), [0xFF, 0xFF, 0xFF, 0xFF]);
    assert_eq!(pixel(&b3, 11, 6), [0x59, 0x14, 0x85, 0xFF]);
    assert_eq!(pixel(&b3, 0, 0), [0x59, 0x14, 0x85, 0xFF]);
    let b4 = make_back_4();
    assert_eq!(pixel(&b4, 15, 7), [0xFF, 0xFF, 0xFF, 0xFF]);
    assert_eq!(pixel(&b4, 14, 7), [0x0D, 0x66, 0x6B, 0xFF]);
}

#[test]
fn background_patterns() {
    let g0 = make_bg_0();
    assert_eq!(pixel(&g0, 8, 3), [0xFF, 0xFF, 0xFF, 30]);
    assert_eq!(pixel(&g0, 7, 3), [0x1A, 0x4D, 0x1A, 0xFF]);
    let g1 = make_bg_1();
    assert_eq!(pixel(&g1, 5, 4), [0xFF, 0xFF, 0xFF, 20]);
    assert_eq!(pixel(&g1, 5, 5), [0x40, 0x2D, 0x1A, 0xFF]);
    let g2 = make_bg_2();
    assert_eq!(pixel(&g2, 0, 0), [0xFF, 0xFF, 0xFF, 0xFF]);
    assert_eq!(pixel(&g2, 8, 8), [0xFF, 0xFF, 0xFF, 0xFF]);
    assert_eq!(pixel(&g2, 4, 8), [0x0D, 0x14, 0x38, 0xFF]);
    let g3 = make_bg_3();
    assert_eq!(pixel(&g3, 3, 5), [0xFF, 0xFF, 0xFF, 30]);
    assert_eq!(pixel(&g3, 3, 4), [0x4D, 0x0D, 0x14, 0xFF]);
    let g4 = make_bg_4();
    assert_eq!(pixel(&g4, 3, 1), [0xFF, 0xFF, 0xFF, 20]);
    assert_eq!(pixel(&g4, 3, 2), [0x1F, 0x1F, 0x24, 0xFF]);
    assert_eq!(pixel(&g4, 2, 2), [0x1F, 0x1F, 0x24, 0xFF]);
}

#[test]
fn encode_png_writes_a_png_file() {
    let bytes = encode_png(&make_face()).expect("encoding a 16x16 image succeeds");
    assert_eq!(&bytes[..8], &[0x89, b'P', b'N', b'G', 0x0D, 0x0A, 0x1A, 0x0A]);
    // IHDR: width 16, height 16, bit depth 8, colour type 6 (RGBA).
    assert_eq!(&bytes[12..16], b"IHDR");
    assert_eq!(&bytes[16..24], &[0, 0, 0, 16, 0, 0, 0, 16]);
    assert_eq!(bytes[24], 8);
    assert_eq!(bytes[25], 6);
    assert_eq!(&bytes[bytes.len() - 8..bytes.len() - 4], b"IEND");
}

#[test]
fn encode_png_differs_for_different_pixels() {
    let a = encode_png(&make_back_0()).unwrap();
    let b = encode_png(&make_back_1()).unwrap();
    assert_ne!(a, b);
    assert_eq!(encode_png(&make_back_0()).unwrap(), a);
}
