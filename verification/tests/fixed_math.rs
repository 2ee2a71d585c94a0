//! The fixed-point kernel: products, quotients and square roots round
//! toward zero on the millionth grid.

use ray_tracer::fixed::{fdiv, fmul, fsqrt, iabs, idiv, isqrt};
use ray_tracer::utils::degrees_to_radians;

const ONE: i128 = 1_000_000;

#[test]
fn fixed_products() {
    assert_eq!(fmul(500_000, 300_000), 150_000);
    assert_eq!(fmul(2 * ONE, 3 * ONE), 6 * ONE);
    assert_eq!(fmul(-2 * ONE, 3 * ONE), -6 * ONE);
    assert_eq!(fmul(1, 1), 0);
    assert_eq!(fmul(-1, 999_999), 0);
}

#[test]
fn fixed_quotients() {
    assert_eq!(fdiv(ONE, 3 * ONE), 333_333);
    assert_eq!(fdiv(-ONE, 3 * ONE), -333_333);
    assert_eq!(fdiv(ONE, -3 * ONE), -333_333);
    assert_eq!(fdiv(6 * ONE, 2 * ONE), 3 * ONE);
    assert_eq!(idiv(-7, 2), -3);
    assert_eq!(idiv(7, 2), 3);
}

#[test]
fn square_roots() {
    assert_eq!(isqrt(0), 0);
    assert_eq!(isqrt(1), 1);
    assert_eq!(isqrt(10), 3);
    assert_eq!(isqrt(250_000_000_000), 500_000);
    assert_eq!(fsqrt(4 * ONE), 2 * ONE);
    assert_eq!(fsqrt(2 * ONE), 1_414_213);
    assert_eq!(fsqrt(0), 0);
}

#[test]
fn magnitudes() {
    assert_eq!(iabs(-5), 5);
    assert_eq!(iabs(5), 5);
    assert_eq!(iabs(0), 0);
}

#[test]
fn degrees_convert_to_radians() {
    assert_eq!(degrees_to_radians(180 * ONE), 3_141_593);
    assert_eq!(degrees_to_radians(90 * ONE), 1_570_796);
    assert_eq!(degrees_to_radians(0), 0);
}
