use serde_numpy::img::{decode_jpeg_bytes, decode_png_bytes};
use serde_numpy::parsing::array_types::{Array, Base};
use serde_numpy::parsing::OutputTypes;

// A 2x2 eight-bit RGB PNG: red, green / blue, white.
const TINY_PNG: [u8; 75] = [
    137, 80, 78, 71, 13, 10, 26, 10, 0, 0, 0, 13, 73, 72, 68, 82, 0, 0, 0, 2, 0, 0, 0, 2, 8, 2,
    0, 0, 0, 253, 212, 154, 115, 0, 0, 0, 18, 73, 68, 65, 84, 120, 156, 99, 248, 207, 192, 192,
    0, 194, 12, 255, 129, 0, 0, 31, 238, 5, 251, 11, 217, 104, 139, 0, 0, 0, 0, 73, 69, 78, 68,
    174, 66, 96, 130,
];

#[test]
fn png_decodes_to_shaped_pixels() {
    let out = decode_png_bytes(&TINY_PNG).unwrap();
    let expected = OutputTypes::U8(Array(
        Base::Array(vec![
            255, 0, 0, 0, 255, 0, //
            0, 0, 255, 255, 255, 255,
        ]),
        Some(vec![2, 2, 3]),
    ));
    assert_eq!(out, expected);
}

#[test]
fn png_rejects_garbage() {
    assert!(decode_png_bytes(&[1, 2, 3, 4]).is_err());
}

#[test]
fn jpeg_rejects_garbage() {
    assert!(decode_jpeg_bytes(&[1, 2, 3, 4]).is_err());
}

// A 2x2 baseline JPEG.
const TINY_JPEG: [u8; 331] = [
    255, 216, 255, 224, 0, 16, 74, 70, 73, 70, 0, 1, 1, 0, 0, 1, 0, 1, 0, 0, 255, 219,
    0, 67, 0, 8, 6, 6, 7, 6, 5, 8, 7, 7, 7, 9, 9, 8, 10, 12, 20, 13, 12, 11,
    11, 12, 25, 18, 19, 15, 20, 29, 26, 31, 30, 29, 26, 28, 28, 32, 36, 46, 39, 32, 34, 44,
    35, 28, 28, 40, 55, 41, 44, 48, 49, 52, 52, 52, 31, 39, 57, 61, 56, 50, 60, 46, 51, 52,
    50, 255, 192, 0, 11, 8, 0, 2, 0, 2, 1, 1, 17, 0, 255, 196, 0, 31, 0, 0, 1, 5,
    1, 1, 1, 1, 1, 1, 0, 0, 0, 0, 0, 0, 0, 0, 1, 2, 3, 4, 5, 6, 7, 8,
    9, 10, 11, 255, 196, 0, 181, 16, 0, 2, 1, 3, 3, 2, 4, 3, 5, 5, 4, 4, 0, 0,
    1, 125, 1, 2, 3, 0, 4, 17, 5, 18, 33, 49, 65, 6, 19, 81, 97, 7, 34, 113, 20, 50,
    129, 145, 161, 8, 35, 66, 177, 193, 21, 82, 209, 240, 36, 51, 98, 114, 130, 9, 10, 22, 23, 24,
    25, 26, 37, 38, 39, 40, 41, 42, 52, 53, 54, 55, 56, 57, 58, 67, 68, 69, 70, 71, 72, 73,
    74, 83, 84, 85, 86, 87, 88, 89, 90, 99, 100, 101, 102, 103, 104, 105, 106, 115, 116, 117, 118, 119,
    120, 121, 122, 131, 132, 133, 134, 135, 136, 137, 138, 146, 147, 148, 149, 150, 151, 152, 153, 154, 162, 163,
    164, 165, 166, 167, 168, 169, 170, 178, 179, 180, 181, 182, 183, 184, 185, 186, 194, 195, 196, 197, 198, 199,
    200, 201, 202, 210, 211, 212, 213, 214, 215, 216, 217, 218, 225, 226, 227, 228, 229, 230, 231, 232, 233, 234,
    241, 242, 243, 244, 245, 246, 247, 248, 249, 250, 255, 218, 0, 8, 1, 1, 0, 0, 63, 0, 43, 255,
    217,
];

#[test]
fn jpeg_decodes_to_shaped_pixels() {
    let arr = decode_jpeg_bytes(&TINY_JPEG).unwrap();
    match arr {
        Array(Base::Array(pixels), Some(shape)) => {
            assert_eq!(shape, vec![2, 2, 3]);
            assert_eq!(pixels.len(), 12);
        }
        other => panic!("expected a dense pixel buffer, got {other:?}"),
    }
}
