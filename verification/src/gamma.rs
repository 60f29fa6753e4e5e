//! Gamma correction of coverage.
//!
//! Coverage is computed as a linear area, but blending happens in sRGB. For a
//! given background luminance a 256-entry table remaps each coverage value so
//! that the sRGB blend approximates the blend in linear light. The table for
//! a luminance is read off the nearest anchor table below it, or interpolated
//! between that table and the next.

use vstd::prelude::*;
use crate::gamma_luts::{
    anchor_entry, anchor_lut, anchor_luminance, lemma_anchor_luts, ANCHOR_LUMINANCES,
};

verus! {

/// Index of the anchor at or directly below `luminance`.
pub open spec fn anchor_index(luminance: u8) -> int {
    (7 * luminance + 6) / 255
}

/// Weight in `0..=255` of the upper anchor for a luminance that lies strictly
/// between two anchors.
pub open spec fn blend_weight(luminance: u8) -> int {
    let i = anchor_index(luminance);
    ((luminance - anchor_luminance(i)) * 255) / (anchor_luminance(i + 1) - anchor_luminance(i))
}

/// The corrected value of `alpha` against a background of `luminance`: the
/// anchor's entry where `luminance` is an anchor, else the rounded blend of the
/// entries of the two anchors around it.
pub open spec fn corrected(luminance: u8, alpha: u8) -> int {
    let i = anchor_index(luminance);
    if luminance == anchor_luminance(i) {
        anchor_lut(i)[alpha as int] as int
    } else {
        let t = blend_weight(luminance);
        let lo = anchor_lut(i)[alpha as int];
        let hi = anchor_lut(i + 1)[alpha as int];
        (lo * (255 - t) + hi * t + 127) / 255
    }
}

/// The whole table for `luminance`.
pub open spec fn gamma_lut(luminance: u8) -> Seq<u8> {
    Seq::new(256, |alpha: int| corrected(luminance, alpha as u8) as u8)
}

/// The anchor index brackets the luminance: its anchor is at or below it, and
/// the next anchor, if there is one, lies above it.
pub proof fn lemma_anchor_index_brackets(luminance: u8)
    ensures
        0 <= anchor_index(luminance) <= 7,
        anchor_luminance(anchor_index(luminance)) <= luminance,
        anchor_index(luminance) < 7 ==> luminance < anchor_luminance(anchor_index(luminance) + 1),
        anchor_index(luminance) == 7 <==> luminance == 255,
{
    let i = anchor_index(luminance);
    assert(0 <= i <= 7);
    if i == 0 {
    } else if i == 1 {
    } else if i == 2 {
    } else if i == 3 {
    } else if i == 4 {
    } else if i == 5 {
    } else if i == 6 {
    } else {
    }
}

/// Away from the six inner anchors, the anchor index is `floor(7 L / 255)`.
pub proof fn lemma_anchor_index_floor(luminance: u8)
    requires
        luminance != 36,
        luminance != 72,
        luminance != 109,
        luminance != 145,
        luminance != 182,
        luminance != 218,
    ensures
        anchor_index(luminance) == (7 * luminance) / 255,
{
}

/// The blend weight of a luminance strictly between two anchors lies in
/// `0..=255`.
proof fn lemma_blend_weight_range(luminance: u8)
    requires
        luminance != anchor_luminance(anchor_index(luminance)),
    ensures
        0 <= blend_weight(luminance) <= 255,
        anchor_index(luminance) < 7,
{
    lemma_anchor_index_brackets(luminance);
    let i = anchor_index(luminance);
    let d = anchor_luminance(i + 1) - anchor_luminance(i);
    let n = (luminance - anchor_luminance(i)) * 255;
    assert(0 < d);
    assert(0 <= n <= 255 * d);
    assert(0 <= n / d <= 255) by (nonlinear_arith)
        requires
            0 < d,
            0 <= n <= 255 * d,
    ;
}

/// A rounded blend of two bytes with weights `255 - t` and `t` is a byte, and
/// it does not decrease when both bytes do not.
proof fn lemma_blend(lo: int, hi: int, lo2: int, hi2: int, t: int)
    requires
        0 <= lo <= lo2 <= 255,
        0 <= hi <= hi2 <= 255,
        0 <= t <= 255,
    ensures
        0 <= lo * (255 - t) + hi * t + 127 <= 65152,
        0 <= (lo * (255 - t) + hi * t + 127) / 255 <= 255,
        (lo * (255 - t) + hi * t + 127) / 255 <= (lo2 * (255 - t) + hi2 * t + 127) / 255,
        lo == hi ==> (lo * (255 - t) + hi * t + 127) / 255 == lo,
        t == 0 ==> (lo * (255 - t) + hi * t + 127) / 255 == lo,
{
    assert(0 <= lo * (255 - t) <= lo2 * (255 - t) <= 255 * (255 - t)) by (nonlinear_arith)
        requires
            0 <= lo <= lo2 <= 255,
            0 <= t <= 255,
    ;
    assert(0 <= hi * t <= hi2 * t <= 255 * t) by (nonlinear_arith)
        requires
            0 <= hi <= hi2 <= 255,
            0 <= t <= 255,
    ;
    assert(lo == hi ==> lo * (255 - t) + hi * t == 255 * lo) by (nonlinear_arith);
    assert(t == 0 ==> lo * (255 - t) + hi * t == 255 * lo) by (nonlinear_arith);
}

/// Every corrected value is a byte.
pub proof fn lemma_corrected_range(luminance: u8, alpha: u8)
    ensures
        0 <= corrected(luminance, alpha) <= 255,
        gamma_lut(luminance).len() == 256,
        gamma_lut(luminance)[alpha as int] == corrected(luminance, alpha),
{
    lemma_anchor_index_brackets(luminance);
    let i = anchor_index(luminance);
    lemma_anchor_luts(i);
    if luminance != anchor_luminance(i) {
        lemma_blend_weight_range(luminance);
        lemma_anchor_luts(i + 1);
        let lo = anchor_lut(i)[alpha as int] as int;
        let hi = anchor_lut(i + 1)[alpha as int] as int;
        lemma_blend(lo, hi, lo, hi, blend_weight(luminance));
    }
}

/// For every luminance the table maps 0 to 0 and 255 to 255.
pub proof fn lemma_lut_endpoints(luminance: u8)
    ensures
        gamma_lut(luminance)[0] == 0,
        gamma_lut(luminance)[255] == 255,
        corrected(luminance, 0) == 0,
        corrected(luminance, 255) == 255,
{
    lemma_anchor_index_brackets(luminance);
    let i = anchor_index(luminance);
    lemma_anchor_luts(i);
    lemma_corrected_range(luminance, 0);
    lemma_corrected_range(luminance, 255);
    if luminance != anchor_luminance(i) {
        lemma_blend_weight_range(luminance);
        lemma_anchor_luts(i + 1);
        lemma_blend(0, 0, 0, 0, blend_weight(luminance));
        lemma_blend(255, 255, 255, 255, blend_weight(luminance));
    }
}

/// For every luminance the table never decreases from one entry to the next.
pub proof fn lemma_lut_monotonic(luminance: u8, alpha: u8)
    requires
        alpha < 255,
    ensures
        gamma_lut(luminance)[alpha as int] <= gamma_lut(luminance)[alpha + 1],
        corrected(luminance, alpha) <= corrected(luminance, (alpha + 1) as u8),
{
    lemma_anchor_index_brackets(luminance);
    let i = anchor_index(luminance);
    let next = (alpha + 1) as u8;
    lemma_anchor_luts(i);
    lemma_corrected_range(luminance, alpha);
    lemma_corrected_range(luminance, next);
    assert(anchor_lut(i)[alpha as int] <= anchor_lut(i)[alpha as int + 1]);
    if luminance != anchor_luminance(i) {
        lemma_blend_weight_range(luminance);
        lemma_anchor_luts(i + 1);
        assert(anchor_lut(i + 1)[alpha as int] <= anchor_lut(i + 1)[alpha as int + 1]);
        lemma_blend(
            anchor_lut(i)[alpha as int] as int,
            anchor_lut(i + 1)[alpha as int] as int,
            anchor_lut(i)[next as int] as int,
            anchor_lut(i + 1)[next as int] as int,
            blend_weight(luminance),
        );
    }
}

/// Gamma correction table for one background luminance.
///
/// The table is built once, so that correcting a value is a single lookup, and
/// is rebuilt in place when the luminance changes.
#[derive(Debug)]
pub struct GammaCorrector {
    lut: [u8; 256],
    current_luminance: u8,
}

impl GammaCorrector {
    #[verifier::type_invariant]
    spec fn holds_table_of_luminance(self) -> bool {
        self.lut@ == gamma_lut(self.current_luminance)
    }

    /// The luminance that the table is built for.
    pub closed spec fn luminance(self) -> u8 {
        self.current_luminance
    }

    /// The table.
    pub closed spec fn table(self) -> Seq<u8> {
        self.lut@
    }

    /// Creates a gamma corrector for the given luminance.
    pub fn new(luminance: u8) -> (corrector: GammaCorrector)
        ensures
            corrector.luminance() == luminance,
            corrector.table() == gamma_lut(luminance),
    {
        let mut lut: [u8; 256] = [0u8; 256];
        Self::update_lut(&mut lut, luminance);
        GammaCorrector { lut, current_luminance: luminance }
    }

    /// Rebuilds the table in place if the luminance has changed.
    pub fn update_if_needed(&mut self, luminance: u8)
        ensures
            final(self).luminance() == luminance,
            final(self).table() == gamma_lut(luminance),
    {
        proof {
            use_type_invariant(&*self);
        }
        if self.current_luminance == luminance {
            return ;
        }
        let mut lut: [u8; 256] = self.lut;
        Self::update_lut(&mut lut, luminance);
        *self = GammaCorrector { lut, current_luminance: luminance };
    }

    /// Fills `lut` with the table for `luminance`.
    fn update_lut(lut: &mut [u8; 256], luminance: u8)
        ensures
            final(lut)@ == gamma_lut(luminance),
    {
        let lo_idx: usize = Self::find_anchor_index(luminance);
        let hi_idx: usize = if lo_idx + 1 < 7 { lo_idx + 1 } else { 7 };
        let lo_lum: u8 = ANCHOR_LUMINANCES[lo_idx];
        let hi_lum: u8 = ANCHOR_LUMINANCES[hi_idx];
        proof {
            lemma_anchor_index_brackets(luminance);
            lemma_anchor_luts(lo_idx as int);
            lemma_anchor_luts(hi_idx as int);
        }
        let mut t: u16 = 0;
        if lo_lum != hi_lum {
            assert(hi_lum > lo_lum && luminance >= lo_lum);
            t = ((luminance - lo_lum) as u16 * 255) / ((hi_lum - lo_lum) as u16);
            proof {
                if luminance != lo_lum {
                    lemma_blend_weight_range(luminance);
                }
            }
        }
        let mut i: usize = 0;
        while i < 256
            invariant
                0 <= i <= 256,
                lo_idx == anchor_index(luminance),
                hi_idx == (if lo_idx + 1 < 7 { lo_idx + 1 } else { 7 }),
                lo_idx <= 7,
                lo_lum == anchor_luminance(lo_idx as int),
                hi_lum == anchor_luminance(hi_idx as int),
                lo_lum == hi_lum ==> luminance == lo_lum,
                luminance == lo_lum ==> t == 0,
                luminance != lo_lum ==> t == blend_weight(luminance) && lo_lum != hi_lum,
                0 <= t <= 255,
                forall|a: int| 0 <= a < i ==> lut@[a] == corrected(luminance, a as u8),
            decreases 256 - i,
        {
            let lo_val: u16 = anchor_entry(lo_idx, i) as u16;
            let hi_val: u16 = anchor_entry(hi_idx, i) as u16;
            proof {
                lemma_blend(lo_val as int, hi_val as int, lo_val as int, hi_val as int, t as int);
                assert(lo_val * (255 - t) >= 0) by (nonlinear_arith)
                    requires
                        0 <= lo_val,
                        0 <= t <= 255,
                ;
                assert(hi_val * t >= 0) by (nonlinear_arith)
                    requires
                        0 <= hi_val,
                        0 <= t,
                ;
            }
            let value: u16 = if lo_lum == hi_lum {
                lo_val
            } else {
                (lo_val * (255 - t) + hi_val * t + 127) / 255
            };
            lut[i] = value as u8;
            i += 1;
        }
        proof {
            assert forall|a: int| 0 <= a < 256 implies lut@[a] == gamma_lut(luminance)[a] by {
                lemma_corrected_range(luminance, a as u8);
            }
            assert(lut@ =~= gamma_lut(luminance));
        }
    }

    /// Finds the anchor table at or directly below `luminance`, in fixed-point
    /// arithmetic.
    pub fn find_anchor_index(luminance: u8) -> (index: usize)
        ensures
            index == anchor_index(luminance),
            index <= 7,
    {
        let scaled: u32 = luminance as u32 * 7 + 6;
        assert(scaled * 0x8081 <= u32::MAX);
        let product: u32 = scaled * 0x8081;
        let index: u32 = product >> 23;
        assert(index == scaled / 255) by (bit_vector)
            requires
                scaled <= 1791,
                product == ((scaled * 0x8081u32) as u32),
                index == product >> 23u32,
        ;
        index as usize
    }

    /// Corrects one coverage value.
    pub fn correct(&self, alpha: u8) -> (out: u8)
        ensures
            out == corrected(self.luminance(), alpha),
            out == self.table()[alpha as int],
            self.table() == gamma_lut(self.luminance()),
    {
        proof {
            use_type_invariant(self);
            lemma_corrected_range(self.current_luminance, alpha);
        }
        self.lut[alpha as usize]
    }
}

} // verus!
