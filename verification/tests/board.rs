//! Tests for the board renderer: dimensions, region colors, error cases,
//! and the 180-degree rotation symmetry.

use boardtex::board::{board_dimensions, board_pixel, rawboard};
use boardtex::buffer::Rgb;
use boardtex::RenderError;

fn rgb(r: u8, g: u8, b: u8) -> Rgb {
    Rgb { r, g, b }
}

#[test]
fn board_dimensions_at_scale_100() {
    // 100 px per square: 12.752 squares -> 1275.2 px, 19.284 -> 1928.4 px,
    // each rounded to the nearest pixel.
    let buf = rawboard(100_000).unwrap();
    assert_eq!(buf.width_px(), 1275);
    assert_eq!(buf.height_px(), 1928);
}

#[test]
fn board_dimensions_formula_other_scales() {
    assert_eq!(board_dimensions(50_000), (638, 964));
    assert_eq!(board_dimensions(250_000), (3188, 4821));
    assert_eq!(board_dimensions(1_000), (13, 19));
}

#[test]
fn board_rejects_zero_scale() {
    match rawboard(0) {
        Err(e) => assert_eq!(e, RenderError::InvalidDimension),
        Ok(_) => panic!("a zero scale must be rejected"),
    }
}

#[test]
fn board_rejects_vanishing_scale() {
    // 0.01 px per square rounds to an image with no pixels at all.
    match rawboard(10) {
        Err(e) => assert_eq!(e, RenderError::InvalidDimension),
        Ok(_) => panic!("a vanishing scale must be rejected"),
    }
}

#[test]
fn board_region_colors_at_scale_100() {
    let buf = rawboard(100_000).unwrap();
    // (668, 984): board coordinate (0.304, 0.198), the central cross cell.
    assert_eq!(buf.get(668, 984), rgb(32, 72, 38));
    // (637, 964): board coordinate (-0.006, -0.002), on both diagonals.
    assert_eq!(buf.get(637, 964), rgb(10, 10, 10));
    // (0, 0): board coordinate (-6.376, -9.642), plain board surface.
    assert_eq!(buf.get(0, 0), rgb(193, 193, 193));
    // (758, 1044): board coordinate (1.204, 0.798), the central 3x3 block.
    assert_eq!(buf.get(758, 1044), rgb(204, 136, 82));
    // (758, 984): board coordinate (1.204, 0.198), a cross arm cell.
    assert_eq!(buf.get(758, 984), rgb(98, 133, 177));
    // (688, 984): board coordinate (0.504, 0.198), on the gridline at 0.5.
    assert_eq!(buf.get(688, 984), rgb(10, 10, 10));
}

#[test]
fn board_rotation_symmetry_at_exactly_centered_scale() {
    // 250 px per square: the board spans 12.752 * 250 = 3188 whole pixels
    // and 19.284 * 250 = 4821 whole pixels, so columns x and 3188 - x (and
    // rows y and 4821 - y) sit at exactly opposite board coordinates and a
    // 180-degree rotation about the board center maps pixel to pixel.
    let (w, h) = board_dimensions(250_000);
    assert_eq!((w, h), (3188, 4821));
    let mut y = 1;
    while y < h {
        let mut x = 1;
        while x < w {
            let a = board_pixel(250_000, x, y);
            let b = board_pixel(250_000, 3188 - x, 4821 - y);
            assert_eq!(a, b);
            x += 211;
        }
        y += 307;
    }
}
