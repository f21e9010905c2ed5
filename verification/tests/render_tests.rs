use mandelbrot2::config::Config;
use mandelbrot2::fix::{fix_from_int, FIX_ONE};
use mandelbrot2::lut::{Lut, Rgb};
use mandelbrot2::render::{color_of, render, render_sequential, trace, ExitTrace};

fn small_lut() -> Lut {
    Lut {
        table: vec![
            Rgb { r: 10, g: 20, b: 30 },
            Rgb { r: 40, g: 50, b: 60 },
            Rgb { r: 70, g: 80, b: 90 },
        ],
    }
}

#[test]
fn buffer_has_exact_length() {
    let cfg = Config {
        image_size: (8, 6),
        viewport_size: (2 * FIX_ONE, 2 * FIX_ONE),
        viewport_displacement: (0, 0),
        max_steps: 16,
    };
    let buf = render(&cfg, &small_lut()).unwrap();
    assert_eq!(buf.len(), 8 * 6 * 3);
    let odd = Config { image_size: (7, 5), ..cfg };
    let buf = render(&odd, &small_lut()).unwrap();
    assert_eq!(buf.len(), 7 * 5 * 3);
}

#[test]
fn rows_mirror_when_vertical_displacement_is_zero() {
    let cfg = Config {
        image_size: (16, 10),
        viewport_size: (3 * FIX_ONE, 2 * FIX_ONE),
        viewport_displacement: (FIX_ONE / 4, 0),
        max_steps: 32,
    };
    let buf = render(&cfg, &small_lut()).unwrap();
    let row = 16 * 3;
    for y in 0..10 {
        assert_eq!(buf[y * row..(y + 1) * row], buf[(9 - y) * row..(10 - y) * row]);
    }
}

#[test]
fn repeated_renders_are_byte_identical() {
    let cfg = Config {
        image_size: (24, 17),
        viewport_size: (3 * FIX_ONE, 2 * FIX_ONE),
        viewport_displacement: (-FIX_ONE / 2, FIX_ONE / 8),
        max_steps: 40,
    };
    let lut = small_lut();
    let a = render(&cfg, &lut).unwrap();
    let b = render(&cfg, &lut).unwrap();
    let c = render_sequential(&cfg, &lut).unwrap();
    assert_eq!(a, b);
    assert_eq!(a, c);
}

#[test]
fn single_bounded_pixel_is_black() {
    let cfg = Config {
        image_size: (1, 1),
        viewport_size: (FIX_ONE, FIX_ONE),
        viewport_displacement: (0, 0),
        max_steps: 255,
    };
    // the only pixel maps to the origin, which never escapes
    let buf = render(&cfg, &small_lut()).unwrap();
    assert_eq!(buf, vec![0, 0, 0]);
}

#[test]
fn escaped_color_wraps_modulo_table_length() {
    let lut = small_lut();
    assert_eq!(color_of(&ExitTrace::Early(0), &lut), Rgb { r: 10, g: 20, b: 30 });
    assert_eq!(color_of(&ExitTrace::Early(1), &lut), Rgb { r: 40, g: 50, b: 60 });
    assert_eq!(color_of(&ExitTrace::Early(2), &lut), Rgb { r: 70, g: 80, b: 90 });
    assert_eq!(color_of(&ExitTrace::Early(3), &lut), Rgb { r: 10, g: 20, b: 30 });
    assert_eq!(color_of(&ExitTrace::Early(254), &lut), Rgb { r: 70, g: 80, b: 90 });
}

#[test]
fn bounded_color_is_always_black() {
    let lut = small_lut();
    assert_eq!(color_of(&ExitTrace::Late(0), &lut), Rgb { r: 0, g: 0, b: 0 });
    assert_eq!(color_of(&ExitTrace::Late(9), &lut), Rgb { r: 0, g: 0, b: 0 });
}

#[test]
fn rendered_pixels_match_direct_tracing() {
    // with a vertical displacement the mirror optimization is off; every
    // pixel of the buffer must equal the mapper + trace + lookup chain
    let cfg = Config {
        image_size: (6, 4),
        viewport_size: (2 * FIX_ONE, 2 * FIX_ONE),
        viewport_displacement: (0, FIX_ONE / 2),
        max_steps: 12,
    };
    let lut = small_lut();
    let buf = render(&cfg, &lut).unwrap();
    let hstep = (2 * FIX_ONE) / 6;
    let vstep = (2 * FIX_ONE) / 4;
    for py in 0..4i64 {
        for px in 0..6i64 {
            let x = (px - 3) * hstep;
            let y = (py - 2) * vstep + FIX_ONE / 2;
            let c = color_of(&trace(x, y, &cfg), &lut);
            let at = ((py * 6 + px) * 3) as usize;
            assert_eq!([buf[at], buf[at + 1], buf[at + 2]], [c.r, c.g, c.b]);
        }
    }
}

#[test]
fn far_viewport_renders_first_table_color() {
    // every pixel escapes on the first step: unused budget 3, table length 2
    let cfg = Config {
        image_size: (2, 2),
        viewport_size: (FIX_ONE, FIX_ONE),
        viewport_displacement: (fix_from_int(100), 0),
        max_steps: 4,
    };
    let lut = Lut {
        table: vec![Rgb { r: 1, g: 2, b: 3 }, Rgb { r: 4, g: 5, b: 6 }],
    };
    let buf = render(&cfg, &lut).unwrap();
    // 3 mod 2 == 1: the second entry everywhere
    assert_eq!(buf, vec![4, 5, 6, 4, 5, 6, 4, 5, 6, 4, 5, 6]);
}
