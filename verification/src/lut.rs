//! The color lookup table: an ordered, non-empty sequence of RGB triples,
//! indexed modulo its length by the unused step count of an escaped point.

use vstd::prelude::*;
use crate::text::{
    digits_val, is_dec, lemma_digits_val_nonneg, lemma_lines_scan, lines_from, lines_of,
    parse_dec, token_bounds, tokens, trim_bounds, trim_spec,
};

verus! {

/// One color, a byte per channel.
#[derive(Clone, Copy, Debug, PartialEq, Eq, Structural)]
pub struct Rgb {
    pub r: u8,
    pub g: u8,
    pub b: u8,
}

/// The lookup table.
#[derive(Debug)]
pub struct Lut {
    pub table: Vec<Rgb>,
}

impl Lut {
    /// The table holds at least one color, so indexing modulo its length is
    /// defined.
    pub open spec fn wf(&self) -> bool {
        self.table@.len() >= 1
    }
}

/// Errors of the table loader.
#[derive(Clone, Copy, Debug, PartialEq, Eq, Structural)]
pub enum LutError {
    /// The line at this index is not three whitespace-separated byte values.
    BadLine { index: usize },
    /// The text spells no color at all.
    Empty,
}

/// The color a line spells: exactly three whitespace-separated decimal byte
/// values.
pub open spec fn color_of_line(line: Seq<u8>) -> Option<Rgb> {
    let ts = tokens(line);
    if ts.len() == 3 && is_dec(ts[0], 255) && is_dec(ts[1], 255) && is_dec(ts[2], 255) {
        Some(
            Rgb {
                r: digits_val(ts[0]) as u8,
                g: digits_val(ts[1]) as u8,
                b: digits_val(ts[2]) as u8,
            },
        )
    } else {
        None
    }
}

/// The table a text spells: surrounding whitespace ignored, then one color
/// per line.
pub open spec fn lut_of(text: Seq<u8>) -> Option<Seq<Rgb>> {
    let ls = lines_of(trim_spec(text));
    if forall|i: int| 0 <= i < ls.len() ==> (#[trigger] color_of_line(ls[i])) is Some {
        Some(Seq::new(ls.len(), |i: int| color_of_line(ls[i])->0))
    } else {
        None
    }
}

impl Lut {
    /// Parse the table from the loader's text: one color per line, three
    /// whitespace-separated byte values each, and at least one color.
    pub fn from_text(text: &[u8]) -> (r: Result<Lut, LutError>)
        ensures
            r is Ok <==> (lut_of(text@) is Some && lut_of(text@)->0.len() >= 1),
            r matches Ok(l) ==> l.table@ == lut_of(text@)->0 && l.wf(),
            r == Result::<Lut, LutError>::Err(LutError::Empty) <==> (lut_of(text@) is Some
                && lut_of(text@)->0.len() == 0),
            r matches Err(LutError::BadLine { index }) ==> {
                let ls = lines_of(trim_spec(text@));
                &&& index < ls.len()
                &&& color_of_line(ls[index as int]) is None
                &&& forall|j: int| 0 <= j < index ==> (#[trigger] color_of_line(ls[j])) is Some
            },
    {
        let (a, b) = trim_bounds(text);
        let ghost tl = trim_spec(text@);
        let mut table: Vec<Rgb> = Vec::new();
        let mut pos: usize = a;
        let ghost mut done: Seq<Seq<u8>> = Seq::empty();
        proof {
            assert(Seq::<Seq<u8>>::empty() + lines_from(tl, 0, Seq::empty()) =~= lines_from(
                tl,
                0,
                Seq::empty(),
            ));
        }
        while pos < b
            invariant
                a <= pos <= b <= text@.len(),
                tl == trim_spec(text@),
                tl == text@.subrange(a as int, b as int),
                lines_of(tl) == done + lines_from(tl, pos - a, Seq::empty()),
                table@.len() == done.len(),
                forall|j: int|
                    0 <= j < done.len() ==> color_of_line(#[trigger] done[j]) == Some(table@[j]),
            decreases b - pos,
        {
            let mut e: usize = pos;
            while e < b && text[e] != 10
                invariant
                    pos <= e <= b <= text@.len(),
                    forall|k: int| pos <= k < e ==> text@[k] != 10,
                decreases b - e,
            {
                e = e + 1;
            }
            let ghost line = text@.subrange(pos as int, e as int);
            proof {
                assert forall|k: int| pos - a <= k < e - a implies tl[k] != 10 by {
                    assert(tl[k] == text@[k + a]);
                }
                lemma_lines_scan(tl, pos - a, e - a, Seq::empty());
                assert(tl.subrange(pos - a, e - a) =~= line);
                assert(Seq::<u8>::empty() + tl.subrange(pos - a, e - a) =~= line);
                if e < b {
                    assert(tl[e - a] == text@[e as int]);
                    assert(lines_from(tl, e - a, line) == seq![line] + lines_from(
                        tl,
                        e - a + 1,
                        Seq::empty(),
                    ));
                } else {
                    assert(line.len() > 0);
                    assert(lines_from(tl, e - a, line) == seq![line]);
                    assert(seq![line] =~= seq![line] + lines_from(tl, b - a + 1, Seq::empty()));
                }
                assert(done + (seq![line] + lines_from(
                    tl,
                    e - a + 1,
                    Seq::empty(),
                )) =~= (done + seq![line]) + lines_from(tl, e - a + 1, Seq::empty()));
            }
            let toks = token_bounds(text, pos, e);
            if toks.len() != 3 {
                return Err(LutError::BadLine { index: table.len() });
            }
            let t0 = toks[0];
            let t1 = toks[1];
            let t2 = toks[2];
            let r0 = parse_dec(text, t0.0, t0.1, 255);
            let r1 = parse_dec(text, t1.0, t1.1, 255);
            let r2 = parse_dec(text, t2.0, t2.1, 255);
            match (r0, r1, r2) {
                (Some(v0), Some(v1), Some(v2)) => {
                    proof {
                        lemma_digits_val_nonneg(tokens(line)[0]);
                        lemma_digits_val_nonneg(tokens(line)[1]);
                        lemma_digits_val_nonneg(tokens(line)[2]);
                    }
                    table.push(Rgb { r: v0 as u8, g: v1 as u8, b: v2 as u8 });
                    proof {
                        done = done + seq![line];
                    }
                },
                _ => {
                    return Err(LutError::BadLine { index: table.len() });
                },
            }
            pos = if e < b {
                e + 1
            } else {
                b
            };
            proof {
                if pos - a > tl.len() {
                    assert(lines_from(tl, pos - a, Seq::empty()) =~= lines_from(
                        tl,
                        e - a + 1,
                        Seq::empty(),
                    ));
                }
            }
        }
        proof {
            assert(lines_from(tl, b - a, Seq::empty()) =~= Seq::<Seq<u8>>::empty());
            assert(lines_of(tl) =~= done);
        }
        if table.len() == 0 {
            proof {
                assert(lut_of(text@) is Some && lut_of(text@)->0 =~= Seq::<Rgb>::empty());
            }
            return Err(LutError::Empty);
        }
        proof {
            let ls = lines_of(tl);
            assert(lut_of(text@) is Some);
            assert(lut_of(text@)->0 =~= table@);
        }
        Ok(Lut { table })
    }
}

} // verus!
