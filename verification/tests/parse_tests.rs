use mandelbrot2::complex::Complex64;
use mandelbrot2::config::{parse_comma_pair, Config};
use mandelbrot2::fix::{fix_add, fix_div_int, fix_from_int, fix_mul, FIX_ONE};
use mandelbrot2::lut::{Lut, LutError, Rgb};
use mandelbrot2::render::map_coord;

#[test]
fn comma_pair_parses_two_values() {
    assert_eq!(parse_comma_pair(b"12,34"), Some((12, 34)));
    assert_eq!(parse_comma_pair(b"0,0"), Some((0, 0)));
    assert_eq!(parse_comma_pair(b"18446744073709551615,1"), Some((u64::MAX, 1)));
}

#[test]
fn comma_pair_rejects_everything_else() {
    assert_eq!(parse_comma_pair(b"12"), None);
    assert_eq!(parse_comma_pair(b"1,2,3"), None);
    assert_eq!(parse_comma_pair(b"a,2"), None);
    assert_eq!(parse_comma_pair(b",2"), None);
    assert_eq!(parse_comma_pair(b"2,"), None);
    assert_eq!(parse_comma_pair(b""), None);
    assert_eq!(parse_comma_pair(b"18446744073709551616,1"), None);
    assert_eq!(parse_comma_pair(b"1 2,3"), None);
}

#[test]
fn lut_parses_one_color_per_line() {
    let lut = Lut::from_text(b"1 2 3\n4 5 6\n").unwrap();
    assert_eq!(lut.table, vec![Rgb { r: 1, g: 2, b: 3 }, Rgb { r: 4, g: 5, b: 6 }]);
}

#[test]
fn lut_tolerates_surrounding_whitespace() {
    let lut = Lut::from_text(b"\n\n  255 0 10  \r\n7\t8\t9\n\n").unwrap();
    assert_eq!(lut.table, vec![Rgb { r: 255, g: 0, b: 10 }, Rgb { r: 7, g: 8, b: 9 }]);
}

#[test]
fn lut_rejects_malformed_lines() {
    assert_eq!(Lut::from_text(b"1 2\n").unwrap_err(), LutError::BadLine { index: 0 });
    assert_eq!(Lut::from_text(b"1 2 3 4\n").unwrap_err(), LutError::BadLine { index: 0 });
    assert_eq!(Lut::from_text(b"1 2 3\n\n4 5 6").unwrap_err(), LutError::BadLine { index: 1 });
    assert_eq!(Lut::from_text(b"1 2 3\n4 x 6").unwrap_err(), LutError::BadLine { index: 1 });
    assert_eq!(Lut::from_text(b"256 0 0").unwrap_err(), LutError::BadLine { index: 0 });
}

#[test]
fn lut_rejects_empty_text() {
    assert_eq!(Lut::from_text(b"").unwrap_err(), LutError::Empty);
    assert_eq!(Lut::from_text(b"  \n \t \n").unwrap_err(), LutError::Empty);
}

#[test]
fn fixed_point_arithmetic_exact_values() {
    assert_eq!(fix_from_int(1), FIX_ONE);
    assert_eq!(fix_mul(FIX_ONE, FIX_ONE), FIX_ONE);
    assert_eq!(fix_mul(fix_from_int(3), fix_from_int(2)), fix_from_int(6));
    assert_eq!(fix_mul(fix_from_int(-3), fix_from_int(2)), fix_from_int(-6));
    assert_eq!(fix_mul(FIX_ONE / 2, FIX_ONE / 2), FIX_ONE / 4);
    assert_eq!(fix_add(fix_from_int(1), fix_from_int(2)), fix_from_int(3));
    // saturation at the ends of the range
    assert_eq!(fix_add(i64::MAX, i64::MAX), i64::MAX);
    assert_eq!(fix_add(i64::MIN, i64::MIN), i64::MIN);
    assert_eq!(fix_mul(i64::MAX, i64::MAX), i64::MAX);
    // products and quotients round toward zero
    assert_eq!(fix_mul(-3, 3), 0);
    assert_eq!(fix_div_int(-3, 2), -1);
    assert_eq!(fix_div_int(FIX_ONE, 3), 1431655765);
}

#[test]
fn complex_square_uses_the_identity() {
    let z = Complex64::new(fix_from_int(1), fix_from_int(2));
    let s = z.square();
    assert_eq!(s, Complex64::new(fix_from_int(-3), fix_from_int(4)));
    let sum = z.add(Complex64::new(fix_from_int(5), fix_from_int(-7)));
    assert_eq!(sum, Complex64::new(fix_from_int(6), fix_from_int(-5)));
}

#[test]
fn mapper_centers_and_displaces() {
    // 256 pixels over a unit extent: half the extent to the left of center
    assert_eq!(map_coord(0, 256, FIX_ONE, 0), -(1i64 << 31));
    assert_eq!(map_coord(128, 256, FIX_ONE, 0), 0);
    assert_eq!(map_coord(255, 256, FIX_ONE, 0), (127i64) << 24);
    // displacement shifts the whole axis
    assert_eq!(map_coord(128, 256, FIX_ONE, fix_from_int(2)), fix_from_int(2));
}

#[test]
fn default_config_is_the_documented_one() {
    let cfg = Config::default();
    assert_eq!(cfg.image_size, (256, 256));
    assert_eq!(cfg.viewport_size, (FIX_ONE, FIX_ONE));
    assert_eq!(cfg.viewport_displacement, (0, 0));
    assert_eq!(cfg.max_steps, 255);
}
