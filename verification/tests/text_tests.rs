use pixel_slicer::pixels::Rgba;
use pixel_slicer::text::{append_dec, render_progress, rgba_to_hex, tile_file_name};

#[test]
fn decimal_rendering_is_exact() {
    let mut s = String::new();
    append_dec(&mut s, 0);
    assert_eq!(s, "0");
    let mut s = String::new();
    append_dec(&mut s, 7);
    assert_eq!(s, "7");
    let mut s = String::new();
    append_dec(&mut s, 10);
    assert_eq!(s, "10");
    let mut s = String::new();
    append_dec(&mut s, 12345);
    assert_eq!(s, "12345");
    let mut s = String::new();
    append_dec(&mut s, u64::MAX);
    assert_eq!(s, "18446744073709551615");
}

#[test]
fn hex_rendering_is_uppercase_and_ignores_alpha() {
    let red = Rgba { red: 255, green: 0, blue: 0, alpha: 255 };
    assert_eq!(rgba_to_hex(red), "#FF0000");
    let c = Rgba { red: 0xAB, green: 0xCD, blue: 0xEF, alpha: 0 };
    assert_eq!(rgba_to_hex(c), "#ABCDEF");
    let black = Rgba { red: 0, green: 0, blue: 0, alpha: 7 };
    assert_eq!(rgba_to_hex(black), "#000000");
    let c = Rgba { red: 1, green: 16, blue: 160, alpha: 9 };
    assert_eq!(rgba_to_hex(c), "#0110A0");
}

#[test]
fn tile_file_names_encode_the_cell() {
    assert_eq!(tile_file_name(0, 0), "pixel_0_0.png");
    assert_eq!(tile_file_name(3, 12), "pixel_3_12.png");
    assert_eq!(tile_file_name(120, 4), "pixel_120_4.png");
}

#[test]
fn progress_line_half_way() {
    let line = render_progress(1, 2);
    assert_eq!(
        line,
        "\rProgress: [####################                    ] 50% - 1 of 2 images saved"
    );
}

#[test]
fn progress_line_complete() {
    let line = render_progress(2, 2);
    assert_eq!(
        line,
        "\rProgress: [########################################] 100% - 2 of 2 images saved"
    );
}

#[test]
fn progress_line_rounds_to_nearest() {
    // 1/3 is 33.3... percent and 13.3... bar cells: both round down.
    let line = render_progress(1, 3);
    assert_eq!(
        line,
        "\rProgress: [#############                           ] 33% - 1 of 3 images saved"
    );
    // 2/3 is 66.7 percent and 26.7 bar cells: both round up.
    let line = render_progress(2, 3);
    assert_eq!(
        line,
        "\rProgress: [###########################             ] 67% - 2 of 3 images saved"
    );
}
