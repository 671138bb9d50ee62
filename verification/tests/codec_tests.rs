use pixel_slicer::codec::{decode_image, encode_png, SliceError};
use pixel_slicer::pixels::Rgba;

#[test]
fn garbage_bytes_do_not_decode() {
    let garbage = vec![0u8, 1, 2, 3, 4, 5, 6, 7];
    match decode_image(&garbage) {
        Err(SliceError::DecodeFailed) => (),
        _ => panic!("garbage bytes must fail to decode"),
    }
    assert!(decode_image(&[]).is_err());
}

#[test]
fn png_round_trip_preserves_pixels() {
    // Four distinct pixels, alpha included: encode to PNG, decode back,
    // and every channel must survive unchanged.
    let raw = vec![
        255, 0, 0, 255, // red
        0, 255, 0, 128, // half-transparent green
        0, 0, 255, 255, // blue
        17, 34, 51, 68, // arbitrary
    ];
    let png = encode_png(2, 2, raw.clone()).unwrap();
    let grid = decode_image(&png).unwrap();
    assert_eq!(grid.width, 2);
    assert_eq!(grid.height, 2);
    assert_eq!(grid.pixel_at(0, 0), Rgba { red: 255, green: 0, blue: 0, alpha: 255 });
    assert_eq!(grid.pixel_at(1, 0), Rgba { red: 0, green: 255, blue: 0, alpha: 128 });
    assert_eq!(grid.pixel_at(0, 1), Rgba { red: 0, green: 0, blue: 255, alpha: 255 });
    assert_eq!(grid.pixel_at(1, 1), Rgba { red: 17, green: 34, blue: 51, alpha: 68 });
}

#[test]
fn encoding_is_deterministic() {
    let raw = vec![9u8, 8, 7, 6, 5, 4, 3, 2];
    let a = encode_png(2, 1, raw.clone()).unwrap();
    let b = encode_png(2, 1, raw).unwrap();
    assert_eq!(a, b);
}

#[test]
fn zero_sized_tile_is_rejected_by_the_encoder() {
    assert!(encode_png(0, 0, Vec::new()).is_err());
}
