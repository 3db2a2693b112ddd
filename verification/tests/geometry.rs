use pixel_canvas::geometry::ceil_div;
use pixel_canvas::geometry::floor_div;
use pixel_canvas::geometry::screen_to_grain;
use pixel_canvas::geometry::viewport_to_region;
use pixel_canvas::OVERSCAN_CELLS;
use pixel_canvas::PIXEL_SIZE;

#[test]
fn floor_div_rounds_toward_negative_infinity() {
    assert_eq!(floor_div(35, 10), 3);
    assert_eq!(floor_div(-35, 10), -4);
    assert_eq!(floor_div(-40, 10), -4);
    assert_eq!(floor_div(0, 10), 0);
    assert_eq!(floor_div(9, 10), 0);
    assert_eq!(floor_div(-1, 10), -1);
    assert_eq!(floor_div(i64::MIN, 1), i64::MIN);
    assert_eq!(floor_div(i64::MAX, 1), i64::MAX);
    assert_eq!(floor_div(i64::MIN, 3), i64::MIN / 3 - 1);
}

#[test]
fn ceil_div_rounds_toward_positive_infinity() {
    assert_eq!(ceil_div(35, 10), 4);
    assert_eq!(ceil_div(40, 10), 4);
    assert_eq!(ceil_div(-35, 10), -3);
    assert_eq!(ceil_div(-40, 10), -4);
    assert_eq!(ceil_div(0, 10), 0);
    assert_eq!(ceil_div(-1, 10), 0);
}

#[test]
fn screen_to_grain_floors_x_and_ceils_y() {
    // The asymmetric rounding that aligns the hover box with the grain.
    let g = screen_to_grain(35, -15, PIXEL_SIZE);
    assert_eq!((g.x, g.y), (3, -1));
    let g = screen_to_grain(35, -20, PIXEL_SIZE);
    assert_eq!((g.x, g.y), (3, -2));
    let g = screen_to_grain(-35, 15, PIXEL_SIZE);
    assert_eq!((g.x, g.y), (-4, 2));
    let g = screen_to_grain(0, 0, PIXEL_SIZE);
    assert_eq!((g.x, g.y), (0, 0));
}

#[test]
fn viewport_to_region_applies_margin_and_quantization() {
    // A centered camera over a 1000 x 1000 viewport: world corners at
    // (-500, 500) and (500, -500), three cells of overscan on every side.
    let r = viewport_to_region(-500, 500, 500, -500, PIXEL_SIZE, OVERSCAN_CELLS);
    assert_eq!((r.top_left.x, r.top_left.y), (-53, 53));
    assert_eq!((r.bottom_right.x, r.bottom_right.y), (53, -53));
}

#[test]
fn viewport_to_region_corners_are_ordered() {
    // Odd sizes and off-center cameras still give ordered integer corners.
    let cases = [
        (-501i64, 499i64, 499i64, -501i64),
        (3, 3, 3, 3),
        (-7, 1003, 991, -13),
        (100, 100, 107, 93),
    ];
    for (tlx, tly, brx, bry) in cases {
        let r = viewport_to_region(tlx, tly, brx, bry, PIXEL_SIZE, OVERSCAN_CELLS);
        assert!(r.top_left.x <= r.bottom_right.x);
        assert!(r.top_left.y >= r.bottom_right.y);
    }
}

#[test]
fn viewport_to_region_zero_margin() {
    let r = viewport_to_region(-500, 500, 500, -500, PIXEL_SIZE, 0);
    assert_eq!((r.top_left.x, r.top_left.y), (-50, 50));
    assert_eq!((r.bottom_right.x, r.bottom_right.y), (50, -50));
}
