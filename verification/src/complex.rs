//! Complex values over fixed-point components, with the squaring identity
//! `(re^2 - im^2, 2*re*im)` used by the escape-time recurrence.

use vstd::prelude::*;
use crate::fix::{fix_add, fix_add_spec, fix_mul, fix_mul_spec, fix_sub, fix_sub_spec};

verus! {

/// A complex number whose components are fixed-point plane coordinates.
#[derive(Clone, Copy, Debug, PartialEq, Eq, Structural)]
pub struct Complex64 {
    pub re: i64,
    pub im: i64,
}

/// Real part of the complex square.
pub open spec fn square_re_spec(re: int, im: int) -> int {
    fix_sub_spec(fix_mul_spec(re, re), fix_mul_spec(im, im))
}

/// Imaginary part of the complex square.
pub open spec fn square_im_spec(re: int, im: int) -> int {
    fix_add_spec(fix_mul_spec(re, im), fix_mul_spec(re, im))
}

impl Complex64 {
    /// The value with the given components.
    pub fn new(re: i64, im: i64) -> (r: Self)
        ensures
            r == (Complex64 { re, im }),
    {
        Complex64 { re, im }
    }

    /// The complex square, by the identity `(re^2 - im^2, 2*re*im)`.
    pub fn square(&self) -> (r: Self)
        ensures
            r.re as int == square_re_spec(self.re as int, self.im as int),
            r.im as int == square_im_spec(self.re as int, self.im as int),
    {
        let rr = fix_mul(self.re, self.re);
        let ii = fix_mul(self.im, self.im);
        let ri = fix_mul(self.re, self.im);
        Complex64 { re: fix_sub(rr, ii), im: fix_add(ri, ri) }
    }

    /// The componentwise sum.
    pub fn add(self, rhs: Self) -> (r: Self)
        ensures
            r.re as int == fix_add_spec(self.re as int, rhs.re as int),
            r.im as int == fix_add_spec(self.im as int, rhs.im as int),
    {
        Complex64 { re: fix_add(self.re, rhs.re), im: fix_add(self.im, rhs.im) }
    }
}

} // verus!
