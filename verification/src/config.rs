//! Render configuration: image resolution, viewport extent and displacement
//! on the plane (fixed-point), and the iteration budget.

use vstd::prelude::*;
use crate::fix::FIX_ONE;
use crate::text::{digits_val, is_dec, parse_dec};

verus! {

/// `s` splits at `i` as `left,right`: the only comma stands at `i` and both
/// sides are decimal values.
pub open spec fn comma_pair_at(s: Seq<u8>, i: int) -> bool {
    &&& 0 <= i < s.len()
    &&& s[i] == 44
    &&& forall|j: int| 0 <= j < s.len() && j != i ==> s[j] != 44
    &&& is_dec(s.subrange(0, i), u64::MAX as int)
    &&& is_dec(s.subrange(i + 1, s.len() as int), u64::MAX as int)
}

/// Parse a comma-separated pair of decimal values: the two values when the
/// input is exactly two such tokens around one comma, nothing otherwise.
pub fn parse_comma_pair(s: &[u8]) -> (r: Option<(u64, u64)>)
    ensures
        r is Some <==> exists|i: int| comma_pair_at(s@, i),
        forall|i: int|
            comma_pair_at(s@, i) ==> r == Some(
                (
                    digits_val(s@.subrange(0, i)) as u64,
                    digits_val(s@.subrange(i + 1, s@.len() as int)) as u64,
                ),
            ),
{
    let n = s.len();
    let mut c: usize = 0;
    while c < n && s[c] != 44
        invariant
            0 <= c <= n == s@.len(),
            forall|j: int| 0 <= j < c ==> s@[j] != 44,
        decreases n - c,
    {
        c = c + 1;
    }
    if c == n {
        return None;
    }
    let mut k: usize = c + 1;
    while k < n && s[k] != 44
        invariant
            c < k <= n == s@.len(),
            forall|j: int| c < j < k ==> s@[j] != 44,
        decreases n - k,
    {
        k = k + 1;
    }
    if k < n {
        proof {
            assert forall|i: int| !comma_pair_at(s@, i) by {
                if 0 <= i < s@.len() && s@[i] == 44 {
                    assert(s@[c as int] == 44);
                    assert(s@[k as int] == 44);
                }
            }
        }
        return None;
    }
    let left = parse_dec(s, 0, c, u64::MAX);
    let right = parse_dec(s, c + 1, n, u64::MAX);
    proof {
        assert forall|i: int| comma_pair_at(s@, i) implies i == c as int by {
            assert(s@[i] == 44);
        }
    }
    match (left, right) {
        (Some(x), Some(y)) => {
            proof {
                assert(comma_pair_at(s@, c as int));
            }
            Some((x, y))
        },
        _ => {
            proof {
                assert(!comma_pair_at(s@, c as int));
            }
            None
        },
    }
}

/// Read-only inputs of a render. Extents and displacements are fixed-point
/// plane coordinates.
#[derive(Clone, Copy, Debug)]
pub struct Config {
    /// Image resolution in pixels, `(width, height)`.
    pub image_size: (u32, u32),
    /// Extent of the viewport on the plane, `(width, height)`.
    pub viewport_size: (i64, i64),
    /// Offset of the viewport's center from the plane origin.
    pub viewport_displacement: (i64, i64),
    /// Bound on the number of recurrence steps per point.
    pub max_steps: u8,
}

impl Config {
    /// Both image dimensions are positive.
    pub open spec fn wf(&self) -> bool {
        self.image_size.0 > 0 && self.image_size.1 > 0
    }
}

impl Default for Config {
    /// A 256 by 256 image of the unit viewport centered at the origin, with
    /// the full step budget.
    fn default() -> (r: Self)
        ensures
            r == (Config {
                image_size: (256u32, 256u32),
                viewport_size: (FIX_ONE, FIX_ONE),
                viewport_displacement: (0i64, 0i64),
                max_steps: 255u8,
            }),
            r.wf(),
    {
        Config {
            image_size: (256, 256),
            viewport_size: (FIX_ONE, FIX_ONE),
            viewport_displacement: (0, 0),
            max_steps: 255,
        }
    }
}

} // verus!
