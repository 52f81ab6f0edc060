use softraster::color::Color;
use softraster::fixed::Fixed;

fn fx(num: i64, den: i64) -> Fixed {
    Fixed::from_ratio(num, den).unwrap()
}

fn rgb(r: Fixed, g: Fixed, b: Fixed) -> Color {
    Color { r, g, b }
}

#[test]
fn black_is_all_zero_and_the_default() {
    assert_eq!(Color::black(), rgb(Fixed::zero(), Fixed::zero(), Fixed::zero()));
    assert_eq!(Color::default(), Color::black());
}

#[test]
fn multiply_scales_every_channel() {
    let c = rgb(fx(1, 1), fx(1, 2), fx(1, 4));
    assert_eq!(c.multiply(fx(1, 2)), rgb(fx(1, 2), fx(1, 4), fx(1, 8)));
    assert_eq!(c.multiply(fx(-2, 1)), rgb(fx(-2, 1), fx(-1, 1), fx(-1, 2)));
    assert_eq!(c.multiply(fx(3, 1)), rgb(fx(3, 1), fx(3, 2), fx(3, 4)));
}

#[test]
fn add_sums_channel_by_channel_without_clamping_to_one() {
    let a = rgb(fx(3, 4), fx(1, 2), fx(0, 1));
    let b = rgb(fx(3, 4), fx(1, 4), fx(-1, 4));
    assert_eq!(a.add(b), rgb(fx(3, 2), fx(3, 4), fx(-1, 4)));
}

#[test]
fn multiply_by_zero_is_black() {
    let a = rgb(fx(7, 10), fx(-3, 1), Fixed { raw: i32::MAX });
    assert_eq!(a.multiply(Fixed::zero()), Color::black());
}

#[test]
fn multiply_by_one_is_identity() {
    let a = rgb(fx(7, 10), fx(-3, 1), Fixed { raw: i32::MIN });
    assert_eq!(a.multiply(Fixed::one()), a);
}

#[test]
fn adding_a_zero_multiple_changes_nothing() {
    let a = rgb(fx(7, 10), fx(-3, 1), Fixed { raw: i32::MAX });
    let b = rgb(fx(1, 3), fx(5, 1), fx(-9, 7));
    assert_eq!(a.add(b.multiply(Fixed::zero())), a);
}

#[test]
fn multiply_distributes_over_a_sum_of_scalars() {
    let a = rgb(fx(1, 1), fx(1, 2), fx(3, 4));
    let s = fx(1, 4);
    let t = fx(1, 2);
    assert_eq!(a.multiply(s.plus(t)), a.multiply(s).add(a.multiply(t)));
    assert_eq!(a.multiply(s.plus(t)), rgb(fx(3, 4), fx(3, 8), fx(9, 16)));
}

#[test]
fn multiply_distributes_within_one_unit_where_products_round() {
    let a = rgb(fx(1, 3), fx(1, 7), fx(-1, 3));
    let s = fx(1, 3);
    let t = fx(1, 5);
    let joined = a.multiply(s.plus(t));
    let split = a.multiply(s).add(a.multiply(t));
    assert_eq!(joined, rgb(Fixed { raw: 11650 }, Fixed { raw: 4992 }, Fixed { raw: -11652 }));
    assert_eq!(split, rgb(Fixed { raw: 11649 }, Fixed { raw: 4992 }, Fixed { raw: -11652 }));
}

#[test]
fn distribution_fails_where_the_sum_of_scalars_cannot_be_stored() {
    let a = rgb(fx(1, 2), fx(1, 2), fx(1, 2));
    let s = fx(20000, 1);
    let joined = a.multiply(s.plus(s));
    let split = a.multiply(s).add(a.multiply(s));
    assert_eq!(joined.r, Fixed { raw: 1073741823 });
    assert_eq!(split.r, fx(20000, 1));
}

#[test]
fn to_rgb8_rounds_down_to_bytes() {
    assert_eq!(rgb(fx(1, 1), fx(0, 1), fx(1, 2)).to_rgb8(), (255, 0, 127));
    assert_eq!(rgb(fx(1, 255), fx(2, 255), fx(254, 255)).to_rgb8(), (0, 1, 253));
    assert_eq!(rgb(Fixed { raw: 258 }, Fixed { raw: 257 }, Fixed { raw: 65535 }).to_rgb8(), (1, 0, 254));
}

#[test]
fn to_rgb8_keeps_channels_outside_the_unit_range_at_the_nearest_byte() {
    assert_eq!(rgb(fx(-1, 2), fx(3, 2), Fixed { raw: -1 }).to_rgb8(), (0, 255, 0));
    assert_eq!(
        rgb(Fixed { raw: i32::MIN }, Fixed { raw: i32::MAX }, Fixed { raw: 65793 }).to_rgb8(),
        (0, 255, 255)
    );
}
