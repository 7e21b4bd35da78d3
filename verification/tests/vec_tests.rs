use termscape::vec::{DivError, Vec2};

#[test]
fn zero_is_the_origin() {
    assert_eq!(Vec2::zero(), Vec2 { x: 0, y: 0 });
}

#[test]
fn new_keeps_its_components() {
    assert_eq!(Vec2::new(3, -4), Vec2 { x: 3, y: -4 });
    assert_eq!(Vec2::new(32767, -32768), Vec2 { x: i16::MAX, y: i16::MIN });
}

#[test]
fn add_is_componentwise() {
    let a = Vec2::new(1, 2);
    let b = Vec2::new(10, -20);
    assert_eq!(a.add(b), Vec2::new(11, -18));
}

#[test]
fn add_wraps_at_the_ends() {
    let a = Vec2::new(30000, -30000);
    let b = Vec2::new(10000, -10000);
    assert_eq!(a.add(b), Vec2::new(-25536, 25536));
}

#[test]
fn sub_is_componentwise_and_wraps() {
    assert_eq!(Vec2::new(5, 7).sub(Vec2::new(2, 10)), Vec2::new(3, -3));
    assert_eq!(Vec2::new(-32768, 0).sub(Vec2::new(1, 0)), Vec2::new(32767, 0));
}

#[test]
fn mul_is_componentwise_and_wraps() {
    assert_eq!(Vec2::new(3, -4).mul(Vec2::new(5, 6)), Vec2::new(15, -24));
    assert_eq!(Vec2::new(256, 1).mul(Vec2::new(256, 1)), Vec2::new(0, 1));
    assert_eq!(Vec2::new(200, 1).mul(Vec2::new(200, 1)), Vec2::new(-25536, 1));
}

#[test]
fn scale_multiplies_both_components() {
    assert_eq!(Vec2::new(3, -4).scale(-2), Vec2::new(-6, 8));
}

#[test]
fn neg_is_the_opposite() {
    assert_eq!(Vec2::new(3, -4).neg(), Vec2::new(-3, 4));
    assert_eq!(Vec2::new(-32768, 0).neg(), Vec2::new(-32768, 0));
}

#[test]
fn div_rounds_toward_zero() {
    assert_eq!(Vec2::new(7, -7).div(Vec2::new(2, 2)), Ok(Vec2::new(3, -3)));
    assert_eq!(Vec2::new(7, -7).div(Vec2::new(-2, -2)), Ok(Vec2::new(-3, 3)));
    assert_eq!(Vec2::new(30000, -5).div(Vec2::new(10000, 2)), Ok(Vec2::new(3, -2)));
}

#[test]
fn div_by_zero_is_an_error() {
    assert_eq!(Vec2::new(1, 1).div(Vec2::new(0, 1)), Err(DivError::DivisionByZero));
    assert_eq!(Vec2::new(1, 1).div(Vec2::new(1, 0)), Err(DivError::DivisionByZero));
    assert_eq!(Vec2::new(1, 1).div(Vec2::zero()), Err(DivError::DivisionByZero));
}

#[test]
fn div_that_overflows_is_an_error() {
    assert_eq!(Vec2::new(-32768, 1).div(Vec2::new(-1, 1)), Err(DivError::Overflow));
    assert_eq!(Vec2::new(1, -32768).div(Vec2::new(1, -1)), Err(DivError::Overflow));
}

#[test]
fn div_reports_the_first_component_that_fails() {
    assert_eq!(Vec2::new(-32768, 1).div(Vec2::new(-1, 0)), Err(DivError::Overflow));
    assert_eq!(Vec2::new(1, -32768).div(Vec2::new(0, -1)), Err(DivError::DivisionByZero));
}

#[test]
fn div_scalar_divides_both_components() {
    assert_eq!(Vec2::new(9, -9).div_scalar(4), Ok(Vec2::new(2, -2)));
    assert_eq!(Vec2::new(9, -9).div_scalar(0), Err(DivError::DivisionByZero));
    assert_eq!(Vec2::new(0, -32768).div_scalar(-1), Err(DivError::Overflow));
}
