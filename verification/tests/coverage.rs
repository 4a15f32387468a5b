use rael_obj::raster::CoveredPixel;
use rael_obj::raster::ScreenPt;
use rael_obj::raster::signed_area;
use rael_obj::raster::triangle_coverage;

fn pt(x: i32, y: i32) -> ScreenPt {
    ScreenPt { x, y }
}

fn positions(cov: &[CoveredPixel]) -> Vec<(i32, i32)> {
    cov.iter().map(|f| (f.x, f.y)).collect()
}

#[test]
fn right_triangle_covers_lower_left_half() {
    let cov = triangle_coverage(pt(0, 0), pt(10, 0), pt(0, 10), 20, 20);
    // all pixels with x >= 0, y >= 0, x + y <= 10
    assert_eq!(cov.len(), 66);
    let pos = positions(&cov);
    assert!(pos.contains(&(0, 0)));
    assert!(pos.contains(&(10, 0)));
    assert!(pos.contains(&(0, 10)));
    assert!(pos.contains(&(3, 4)));
    assert!(!pos.contains(&(6, 5)));
    for f in &cov {
        assert!(f.x >= 0 && f.y >= 0 && f.x + f.y <= 10);
    }
}

#[test]
fn winding_reversal_covers_identical_pixels() {
    let forward = triangle_coverage(pt(0, 0), pt(10, 0), pt(0, 10), 20, 20);
    let reverse = triangle_coverage(pt(0, 0), pt(0, 10), pt(10, 0), 20, 20);
    assert_eq!(positions(&forward), positions(&reverse));
}

#[test]
fn edge_values_sum_to_triangle_area() {
    let (a, b, c) = (pt(2, 1), pt(12, 3), pt(5, 9));
    let area = signed_area(a, b, c);
    assert_ne!(area, 0);
    let cov = triangle_coverage(a, b, c, 30, 30);
    assert!(!cov.is_empty());
    for f in &cov {
        assert_eq!(f.w0 + f.w1 + f.w2, area);
    }
}

#[test]
fn colinear_triangle_yields_no_fragments() {
    let cov = triangle_coverage(pt(0, 0), pt(5, 5), pt(10, 10), 20, 20);
    assert!(cov.is_empty());
    assert_eq!(signed_area(pt(0, 0), pt(5, 5), pt(10, 10)), 0);
}

#[test]
fn repeated_vertex_yields_no_fragments() {
    let cov = triangle_coverage(pt(3, 3), pt(3, 3), pt(9, 1), 20, 20);
    assert!(cov.is_empty());
}

#[test]
fn coverage_is_clipped_to_viewport() {
    let cov = triangle_coverage(pt(0, 0), pt(10, 0), pt(0, 10), 5, 5);
    assert_eq!(cov.len(), 25);
    for f in &cov {
        assert!(f.x < 5 && f.y < 5);
    }
    let off = triangle_coverage(pt(-20, -20), pt(-10, -20), pt(-20, -10), 5, 5);
    assert!(off.is_empty());
}

#[test]
fn coverage_is_row_major() {
    let cov = triangle_coverage(pt(1, 2), pt(14, 4), pt(4, 13), 30, 30);
    for w in cov.windows(2) {
        assert!(w[0].y < w[1].y || (w[0].y == w[1].y && w[0].x < w[1].x));
    }
}

#[test]
fn extreme_coordinates_do_not_overflow() {
    let cov = triangle_coverage(
        pt(i32::MAX, i32::MAX),
        pt(i32::MIN, 0),
        pt(0, i32::MIN),
        10,
        10,
    );
    for f in &cov {
        assert!((0..10).contains(&f.x) && (0..10).contains(&f.y));
    }
    // areas at the extremes of the coordinate range are computed exactly
    assert_eq!(signed_area(pt(i32::MIN, i32::MIN), pt(0, 0), pt(i32::MAX, i32::MAX)), 0);
    assert_eq!(
        signed_area(pt(0, 0), pt(i32::MAX, 0), pt(0, i32::MAX)),
        -(i32::MAX as i128) * (i32::MAX as i128)
    );
}

#[test]
fn zero_sized_viewport_covers_nothing() {
    let cov = triangle_coverage(pt(0, 0), pt(10, 0), pt(0, 10), 0, 0);
    assert!(cov.is_empty());
}
