use softraster::color::Color;
use softraster::fixed::Fixed;
use softraster::geometry::{is_inside, slope_height_at, Height, Point2D, Triangle};

fn fx(num: i64, den: i64) -> Fixed {
    Fixed::from_ratio(num, den).unwrap()
}

fn pt(xn: i64, xd: i64, yn: i64, yd: i64) -> Point2D {
    Point2D { x: fx(xn, xd), y: fx(yn, yd) }
}

fn top_triangle() -> Triangle {
    Triangle { a: pt(0, 1, 0, 1), b: pt(1, 1, 0, 1), c: pt(1, 2, 1, 2), color: Color::black() }
}

#[test]
fn point_below_the_top_edge_is_inside() {
    assert!(is_inside(&top_triangle(), pt(1, 2, 1, 10)));
}

#[test]
fn point_beyond_the_apex_is_outside() {
    assert!(!is_inside(&top_triangle(), pt(1, 2, 6, 10)));
}

#[test]
fn points_on_an_edge_are_outside() {
    let tri = top_triangle();
    assert!(!is_inside(&tri, pt(1, 2, 0, 1)));
    assert!(!is_inside(&tri, pt(1, 4, 1, 4)));
    assert!(!is_inside(&tri, pt(3, 4, 1, 4)));
    assert!(!is_inside(&tri, pt(1, 2, 1, 2)));
    assert!(is_inside(&tri, Point2D { x: fx(1, 4), y: Fixed { raw: 16383 } }));
    assert!(is_inside(&tri, Point2D { x: fx(1, 2), y: Fixed { raw: 1 } }));
}

#[test]
fn points_left_and_right_of_the_triangle_are_outside() {
    let tri = top_triangle();
    assert!(!is_inside(&tri, pt(-1, 10, 1, 10)));
    assert!(!is_inside(&tri, pt(11, 10, 1, 10)));
    assert!(!is_inside(&tri, pt(1, 20, 1, 10)));
    assert!(!is_inside(&tri, pt(1, 2, -1, 10)));
}

#[test]
fn anticlockwise_vertices_hold_none_of_the_same_points() {
    let tri = Triangle { a: pt(0, 1, 0, 1), b: pt(1, 2, 1, 2), c: pt(1, 1, 0, 1), color: Color::black() };
    assert!(!is_inside(&tri, pt(1, 2, 1, 10)));
    assert!(!is_inside(&tri, pt(1, 2, 6, 10)));
    assert!(!is_inside(&tri, pt(1, 4, 1, 8)));
}

#[test]
fn a_vertical_edge_leaves_the_triangle_empty() {
    let first = Triangle { a: pt(0, 1, 0, 1), b: pt(0, 1, 1, 1), c: pt(1, 1, 1, 2), color: Color::black() };
    let second = Triangle { a: pt(0, 1, 0, 1), b: pt(1, 1, 0, 1), c: pt(1, 1, 1, 1), color: Color::black() };
    let third = Triangle { a: pt(0, 1, 0, 1), b: pt(1, 1, 0, 1), c: pt(0, 1, 1, 1), color: Color::black() };
    for tri in [first, second, third] {
        for (xn, yn) in [(1, 1), (1, 5), (5, 1), (5, 5), (9, 5), (3, 2), (-1, 5), (11, 5)] {
            assert!(!is_inside(&tri, pt(xn, 10, yn, 10)));
        }
    }
}

#[test]
fn a_triangle_without_area_is_empty() {
    let tri = Triangle { a: pt(0, 1, 0, 1), b: pt(1, 2, 1, 2), c: pt(1, 1, 1, 1), color: Color::black() };
    for (xn, yn) in [(1, 1), (5, 5), (5, 4), (5, 6), (9, 9)] {
        assert!(!is_inside(&tri, pt(xn, 10, yn, 10)));
    }
}

#[test]
fn slope_height_at_gives_the_exact_fraction() {
    let h = slope_height_at(pt(0, 1, 0, 1), pt(1, 1, 1, 1), fx(1, 2)).unwrap();
    assert_eq!(h, Height { num: 65536 * 32768, den: 65536 });
    let h = slope_height_at(pt(0, 1, 1, 1), pt(3, 1, 0, 1), fx(1, 1)).unwrap();
    assert_eq!(h, Height { num: 65536 * 196608 - 65536 * 65536, den: 196608 });
    assert_eq!(h.num * 3, 2 * 65536 * h.den as i128);
}

#[test]
fn slope_height_at_keeps_the_denominator_positive() {
    let forward = slope_height_at(pt(0, 1, 0, 1), pt(1, 1, 1, 2), fx(1, 2)).unwrap();
    let backward = slope_height_at(pt(1, 1, 1, 2), pt(0, 1, 0, 1), fx(1, 2)).unwrap();
    assert_eq!(forward, Height { num: 32768 * 32768, den: 65536 });
    assert_eq!(backward, forward);
}

#[test]
fn slope_height_at_passes_through_both_points() {
    let p1 = pt(-3, 7, 2, 5);
    let p2 = pt(11, 13, -9, 4);
    let at_first = slope_height_at(p1, p2, p1.x).unwrap();
    let at_second = slope_height_at(p1, p2, p2.x).unwrap();
    assert_eq!(at_first.num, p1.y.raw as i128 * at_first.den as i128);
    assert_eq!(at_second.num, p2.y.raw as i128 * at_second.den as i128);
}

#[test]
fn slope_height_at_has_no_value_on_a_vertical_line() {
    assert_eq!(slope_height_at(pt(1, 2, 0, 1), pt(1, 2, 1, 1), fx(1, 2)), None);
    assert_eq!(slope_height_at(pt(1, 2, 0, 1), pt(1, 2, 1, 1), fx(-1, 1)), None);
    assert_eq!(slope_height_at(pt(0, 1, 0, 1), pt(0, 1, 0, 1), fx(0, 1)), None);
}

#[test]
fn slope_height_at_does_not_overflow_at_the_extremes() {
    let low = Fixed { raw: i32::MIN };
    let high = Fixed { raw: i32::MAX };
    let h = slope_height_at(Point2D { x: low, y: low }, Point2D { x: high, y: high }, high).unwrap();
    assert_eq!(h.den, 4294967295);
    assert_eq!(h.num, 2147483647 * 4294967295);
    assert!(!h.is_below(high));
    assert!(!h.is_above(high));
    assert!(h.is_above(low));
    let h = slope_height_at(Point2D { x: high, y: low }, Point2D { x: low, y: high }, high).unwrap();
    assert_eq!(h.num, -2147483648 * 4294967295);
    assert!(h.is_below(high));
}

#[test]
fn heights_compare_strictly() {
    let h = Height { num: 3, den: 2 };
    assert!(h.is_below(Fixed { raw: 2 }));
    assert!(h.is_above(Fixed { raw: 1 }));
    let whole = Height { num: 4, den: 2 };
    assert!(!whole.is_below(Fixed { raw: 2 }));
    assert!(!whole.is_above(Fixed { raw: 2 }));
    let negative = Height { num: -3, den: 2 };
    assert!(negative.is_below(Fixed { raw: -1 }));
    assert!(negative.is_above(Fixed { raw: -2 }));
}
