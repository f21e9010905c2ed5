use mandelbrot2::config::Config;
use mandelbrot2::fix::{fix_from_int, FIX_ONE};
use mandelbrot2::render::{trace, trace_single, ExitTrace};

#[test]
fn origin_is_bounded() {
    let cfg = Config::default();
    assert_eq!(trace(0, 0, &cfg), ExitTrace::Late(0));
    assert_eq!(trace_single(0, 0, &cfg), ExitTrace::Late(0));
}

#[test]
fn far_point_escapes_almost_immediately() {
    let cfg = Config::default();
    let far = fix_from_int(10);
    match trace(far, far, &cfg) {
        ExitTrace::Early(n) => assert_eq!(n, 254),
        ExitTrace::Late(_) => panic!("a far point must escape"),
    }
}

#[test]
fn zero_budget_is_bounded() {
    let mut cfg = Config::default();
    cfg.max_steps = 0;
    let far = fix_from_int(10);
    assert_eq!(trace(far, far, &cfg), ExitTrace::Late(0));
}

#[test]
fn one_budget_escape_carries_zero() {
    let mut cfg = Config::default();
    cfg.max_steps = 1;
    let far = fix_from_int(10);
    assert_eq!(trace(far, far, &cfg), ExitTrace::Early(0));
}

#[test]
fn paired_and_single_step_loops_agree() {
    // a small deterministic pseudo-random sample of (x, y, max_steps)
    let mut state: u64 = 0x2545_f491_4f6c_dd1d;
    for _ in 0..500 {
        state = state.wrapping_mul(6364136223846793005).wrapping_add(1442695040888963407);
        let x = ((state >> 16) as u32 as i64) - (1i64 << 31);
        state = state.wrapping_mul(6364136223846793005).wrapping_add(1442695040888963407);
        let y = ((state >> 16) as u32 as i64) - (1i64 << 31);
        state = state.wrapping_mul(6364136223846793005).wrapping_add(1442695040888963407);
        let steps = (state >> 24) as u8;
        let cfg = Config {
            image_size: (64, 64),
            viewport_size: (2 * FIX_ONE, FIX_ONE),
            viewport_displacement: (0, 0),
            max_steps: steps,
        };
        assert_eq!(trace(x, y, &cfg), trace_single(x, y, &cfg));
    }
}

#[test]
fn paired_and_single_agree_on_odd_budget() {
    let mut cfg = Config::default();
    cfg.max_steps = 7;
    for i in -8i32..=8 {
        for j in -8i32..=8 {
            let x = fix_from_int(i) / 8;
            let y = fix_from_int(j) / 8;
            assert_eq!(trace(x, y, &cfg), trace_single(x, y, &cfg));
        }
    }
}
