use codimate::arith::div_floor;
use codimate::arith::div_half_up;
use codimate::arith::icbrt;
use codimate::arith::isqrt;

#[test]
fn div_floor_rounds_toward_minus_infinity() {
    assert_eq!(div_floor(7, 2), 3);
    assert_eq!(div_floor(-7, 2), -4);
    assert_eq!(div_floor(-8, 2), -4);
    assert_eq!(div_floor(0, 5), 0);
    assert_eq!(div_floor(-1, 1000), -1);
}

#[test]
fn div_half_up_rounds_halves_up() {
    assert_eq!(div_half_up(7, 2), 4);
    assert_eq!(div_half_up(-7, 2), -3);
    assert_eq!(div_half_up(5, 3), 2);
    assert_eq!(div_half_up(4, 3), 1);
    assert_eq!(div_half_up(-4, 3), -1);
}

#[test]
fn isqrt_takes_every_number() {
    assert_eq!(isqrt(0), 0);
    assert_eq!(isqrt(1), 1);
    assert_eq!(isqrt(3), 1);
    assert_eq!(isqrt(4), 2);
    assert_eq!(isqrt(99), 9);
    assert_eq!(isqrt(1 << 48), 1 << 24);
    assert_eq!(isqrt((1 << 48) - 1), (1 << 24) - 1);
    assert_eq!(isqrt(u64::MAX), 4294967295);
    assert_eq!(isqrt(4294967295 * 4294967295), 4294967295);
    assert_eq!(isqrt(4294967295 * 4294967295 - 1), 4294967294);
}

#[test]
fn icbrt_takes_every_number() {
    assert_eq!(icbrt(0), 0);
    assert_eq!(icbrt(1), 1);
    assert_eq!(icbrt(7), 1);
    assert_eq!(icbrt(8), 2);
    assert_eq!(icbrt(26), 2);
    assert_eq!(icbrt(27), 3);
    assert_eq!(icbrt(1 << 75), 1 << 25);
    assert_eq!(icbrt((1 << 75) - 1), (1 << 25) - 1);
    assert_eq!(icbrt(u128::MAX), 6981463658331);
    let top: u128 = 6981463658331;
    assert_eq!(icbrt(top * top * top), top);
    assert_eq!(icbrt(top * top * top - 1), top - 1);
}
