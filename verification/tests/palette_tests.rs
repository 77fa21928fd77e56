use md_tui::palette::{depth, rgb, rgb_to_xterm256, ColorDepth};
use md_tui::style::Color;

#[test]
fn pure_white_maps_to_cube_white() {
    assert_eq!(rgb_to_xterm256(255, 255, 255), 231);
}

#[test]
fn pure_black_maps_to_cube_black() {
    assert_eq!(rgb_to_xterm256(0, 0, 0), 16);
}

#[test]
fn mid_gray_uses_grayscale_ramp() {
    let idx = rgb_to_xterm256(128, 128, 128);
    assert!((232..=255).contains(&idx), "expected grayscale, got {}", idx);
}

#[test]
fn saturated_red_picks_cube_red() {
    assert_eq!(rgb_to_xterm256(255, 0, 0), 196);
}

#[test]
fn nearest_color_is_exact_on_cube_and_ramp() {
    assert_eq!(rgb_to_xterm256(95, 135, 175), 16 + 36 + 2 * 6 + 3);
    assert_eq!(rgb_to_xterm256(8, 8, 8), 232);
    assert_eq!(rgb_to_xterm256(238, 238, 238), 255);
    // As close to black as to the first gray: the lower index wins.
    assert_eq!(rgb_to_xterm256(4, 4, 4), 16);
}

#[test]
fn depth_decides_between_rgb_and_index() {
    let d = depth(Some("truecolor"), None, None);
    assert_eq!(d, ColorDepth::TrueColor);
    assert_eq!(rgb(d, 1, 2, 3), Color::Rgb(1, 2, 3));
    assert_eq!(rgb(ColorDepth::Indexed256, 255, 0, 0), Color::Indexed(196));
}
