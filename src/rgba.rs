//! Red, green and blue bytes with an alpha channel, and blending.
use crate::common::{
    composite, format_error, format_message, random_below, round_ratio, value_error, ColorError,
    ALPHA_HUNDREDTH, ALPHA_ONE,
};
use crate::rgb::RGB;
use crate::text::{
    alpha_field, alpha_text, call_field_ranges, call_fields, chars_of, dec, push_alpha, push_dec,
    read_alpha_field, read_uint_field, uint_field,
};
use vstd::prelude::*;

verus! {

/// A colour as three bytes and an alpha, held in units of
/// `1 / ALPHA_ONE`.
#[derive(Debug, Clone, Copy, PartialEq, Eq, Structural)]
pub struct RGBA {
    rgb: RGB,
    a: u32,
}

impl View for RGBA {
    type V = (int, int, int, int);

    closed spec fn view(&self) -> (int, int, int, int) {
        (self.rgb@.0, self.rgb@.1, self.rgb@.2, self.a as int)
    }
}

/// The head of the text form.
pub open spec fn rgba_head() -> Seq<char> {
    seq!['r', 'g', 'b', 'a', '(']
}

/// What `rgba(r,g,b,a)` holds: three bytes, whether the alpha lies in
/// `[0, 1]`, and the alpha in alpha units where it does; `None` where the
/// text has another shape or a field is not a number of its kind.
pub open spec fn rgba_fields(s: Seq<char>) -> Option<(int, int, int, bool, int)> {
    match call_fields(s, rgba_head()) {
        Some(f) => if f.len() == 4 && uint_field(f[0], 255) is Some && uint_field(f[1], 255) is Some
            && uint_field(f[2], 255) is Some && alpha_field(f[3]) is Some {
            Some(
                (
                    uint_field(f[0], 255)->0,
                    uint_field(f[1], 255)->0,
                    uint_field(f[2], 255)->0,
                    alpha_field(f[3]).unwrap().0,
                    alpha_field(f[3]).unwrap().1,
                ),
            )
        } else {
            None
        },
        None => None,
    }
}

/// The text form `rgba(r,g,b,a)`, with the alpha to two decimals.
pub open spec fn rgba_text(c: (int, int, int, int)) -> Seq<char> {
    rgba_head() + dec(c.0) + seq![','] + dec(c.1) + seq![','] + dec(c.2) + seq![','] + alpha_text(
        c.3,
    ) + seq![')']
}

/// The same colour seen over opaque white.
pub open spec fn flatten(c: (int, int, int, int)) -> (int, int, int) {
    (composite(c.0, c.3), composite(c.1, c.3), composite(c.2, c.3))
}

/// `v` clamped to `[0, ALPHA_ONE]`.
pub open spec fn clamp_alpha(v: int) -> int {
    if v < 0 {
        0
    } else if v > ALPHA_ONE {
        ALPHA_ONE as int
    } else {
        v
    }
}

/// Alpha `a` times `f / ALPHA_ONE`, rounded and clamped to `[0, 1]`.
pub open spec fn scale_alpha(a: int, f: int) -> int {
    if f <= 0 {
        0
    } else {
        clamp_alpha(round_ratio(a * f, ALPHA_ONE as int))
    }
}

/// The weight given to the other colour in a mix, scaled by
/// `mix_denominator`: `p * (1 + da)` with `da` the difference of alphas.
pub open spec fn mix_w1(base: (int, int, int, int), other: (int, int, int, int), p: int) -> int {
    p * (ALPHA_ONE + other.3 - base.3)
}

/// The weight given to the base colour in a mix, scaled likewise:
/// `(1 - p) * (1 - da)`.
pub open spec fn mix_w2(base: (int, int, int, int), other: (int, int, int, int), p: int) -> int {
    (ALPHA_ONE - p) * (ALPHA_ONE - other.3 + base.3)
}

/// One channel of a mix, truncated: `w1 * other + w2 * base`, where the
/// weights fall back to `p` and `1 - p` when the alphas oppose each other
/// fully under an extreme weight (both scaled weights zero).
pub open spec fn mix_channel(
    base: (int, int, int, int),
    other: (int, int, int, int),
    p: int,
    bc: int,
    oc: int,
) -> int {
    let w1 = mix_w1(base, other, p);
    let w2 = mix_w2(base, other, p);
    if w1 + w2 == 0 {
        (p * oc + (ALPHA_ONE - p) * bc) / (ALPHA_ONE as int)
    } else {
        (w1 * oc + w2 * bc) / (w1 + w2)
    }
}

/// The alpha-weighted mix of `base` and `other` with weight `p` (in alpha
/// units) on `other`: channels by `mix_channel`, alpha
/// `other.alpha * p + base.alpha * (1 - p)` rounded.
pub open spec fn mix_of(base: (int, int, int, int), other: (int, int, int, int), p: int) -> (
    int,
    int,
    int,
    int,
) {
    (
        mix_channel(base, other, p, base.0, other.0),
        mix_channel(base, other, p, base.1, other.1),
        mix_channel(base, other, p, base.2, other.2),
        round_ratio(other.3 * p + base.3 * (ALPHA_ONE - p), ALPHA_ONE as int),
    )
}

/// Luma `0.3 r + 0.59 g + 0.11 b`, truncated.
pub open spec fn gray_level(c: (int, int, int, int)) -> int {
    (30 * c.0 + 59 * c.1 + 11 * c.2) / 100
}

/// The grey of the same luma, with the same alpha.
pub open spec fn gray_of(c: (int, int, int, int)) -> (int, int, int, int) {
    (gray_level(c), gray_level(c), gray_level(c), c.3)
}

/// Every channel `v` turned to `255 - v`, with the same alpha.
pub open spec fn negate_of(c: (int, int, int, int)) -> (int, int, int, int) {
    (255 - c.0, 255 - c.1, 255 - c.2, c.3)
}

/// The weight on the other colour of a mix: `weight`, or one half.
pub open spec fn mix_weight(weight: Option<u32>) -> int {
    match weight {
        Some(w) => w as int,
        None => (ALPHA_ONE / 2) as int,
    }
}

fn mix_channel_exec(w1: u64, w2: u64, p: u64, bc: u8, oc: u8) -> (ch: u8)
    requires
        w1 <= 2 * 25500 * 25500,
        w2 <= 2 * 25500 * 25500,
        p <= 25500,
    ensures
        ch == (if w1 + w2 == 0 {
            (p * oc + (25500 - p) * bc) / 25500
        } else {
            (w1 * oc + w2 * bc) / (w1 + w2)
        }),
{
    let (bc, oc) = (bc as u64, oc as u64);
    if w1 + w2 == 0 {
        assert(p * oc + (25500 - p) * bc <= 255 * 25500) by (nonlinear_arith)
            requires
                p <= 25500,
                oc <= 255,
                bc <= 255,
        ;
        ((p * oc + (ALPHA_ONE as u64 - p) * bc) / ALPHA_ONE as u64) as u8
    } else {
        assert(w1 * oc + w2 * bc <= 255 * (w1 + w2)) by (nonlinear_arith)
            requires
                oc <= 255,
                bc <= 255,
        ;
        assert(w1 * oc <= 255 * w1 && w2 * bc <= 255 * w2) by (nonlinear_arith)
            requires
                oc <= 255,
                bc <= 255,
        ;
        let q = (w1 * oc + w2 * bc) / (w1 + w2);
        assert(q <= 255) by (nonlinear_arith)
            requires
                q == (w1 * oc + w2 * bc) / (w1 + w2),
                w1 * oc + w2 * bc <= 255 * (w1 + w2),
                w1 + w2 > 0,
        ;
        q as u8
    }
}

impl RGBA {
    /// Every channel is a byte.
    pub proof fn lemma_bytes(&self)
        ensures
            0 <= self@.0 <= 255 && 0 <= self@.1 <= 255 && 0 <= self@.2 <= 255 && 0 <= self@.3,
    {
        self.rgb.lemma_bytes();
    }

    pub open spec fn wf(&self) -> bool {
        0 <= self@.3 <= ALPHA_ONE
    }

    /// A colour from bytes and an alpha already known to be in range.
    pub(crate) fn new(r: u8, g: u8, b: u8, a: u32) -> (c: RGBA)
        requires
            a <= ALPHA_ONE,
        ensures
            c@ == (r as int, g as int, b as int, a as int),
            c.wf(),
    {
        RGBA { rgb: RGB::new(r, g, b), a }
    }

    /// A colour from three bytes and an alpha in alpha units; fails with a
    /// value error where the alpha exceeds `ALPHA_ONE`.
    pub fn from_tuple(value: (u8, u8, u8, u32)) -> (res: Result<RGBA, ColorError>)
        ensures
            if value.3 <= ALPHA_ONE {
                res matches Ok(c) && c@ == (
                    value.0 as int,
                    value.1 as int,
                    value.2 as int,
                    value.3 as int,
                )
            } else {
                res matches Err(e) && e is ValueErr
            },
    {
        if value.3 > ALPHA_ONE {
            let vals = vec![value.0 as u32, value.1 as u32, value.2 as u32, value.3];
            return Err(
                value_error("RGBA", &vals, "the alpha must be within 0~1 (0~25500 units)"),
            );
        }
        Ok(RGBA::new(value.0, value.1, value.2, value.3))
    }

    /// Reads `rgba(r,g,b,a)` with a decimal alpha: case and white space
    /// around the whole and around each field are ignored. An alpha outside
    /// `[0, 1]` is a value error; one in range is rounded to alpha units.
    pub fn parse(s: &str) -> (res: Result<RGBA, ColorError>)
        ensures
            match rgba_fields(s@) {
                Some(t) => if t.3 {
                    res matches Ok(c) && c@ == (t.0, t.1, t.2, t.4)
                } else {
                    res matches Err(e) && e is ValueErr
                },
                None => res matches Err(ColorError::FormatErr(m)) && m@ == format_message(
                    seq!['R', 'G', 'B', 'A'],
                    s@,
                ),
            },
    {
        proof {
            reveal_strlit("RGBA");
        }
        assert("RGBA"@ =~= seq!['R', 'G', 'B', 'A']);
        let v = chars_of(s);
        let head = chars_of("rgba(");
        proof {
            reveal_strlit("rgba(");
        }
        assert(head@ =~= rgba_head());
        let ranges = match call_field_ranges(&v, &head) {
            Some(rs) => rs,
            None => return Err(format_error("RGBA", s)),
        };
        if ranges.len() != 4 {
            return Err(format_error("RGBA", s));
        }
        let ghost f = call_fields(v@, head@)->0;
        assert(v@.subrange(ranges@[0].0 as int, ranges@[0].1 as int) == f[0]);
        assert(v@.subrange(ranges@[1].0 as int, ranges@[1].1 as int) == f[1]);
        assert(v@.subrange(ranges@[2].0 as int, ranges@[2].1 as int) == f[2]);
        assert(v@.subrange(ranges@[3].0 as int, ranges@[3].1 as int) == f[3]);
        let r = read_uint_field(&v, ranges[0].0, ranges[0].1, 255);
        let g = read_uint_field(&v, ranges[1].0, ranges[1].1, 255);
        let b = read_uint_field(&v, ranges[2].0, ranges[2].1, 255);
        let a = read_alpha_field(&v, ranges[3].0, ranges[3].1);
        match (r, g, b, a) {
            (Some(r), Some(g), Some(b), Some((in_range, a))) => {
                if !in_range {
                    let vals = vec![r, g, b];
                    return Err(value_error("RGBA", &vals, "the alpha must be within 0~1"));
                }
                proof {
                    crate::text::lemma_alpha_field_bound(f[3]);
                }
                Ok(RGBA::new(r as u8, g as u8, b as u8, a))
            },
            _ => Err(format_error("RGBA", s)),
        }
    }

    /// The text form `rgba(r,g,b,a)`, with the alpha to two decimals.
    pub fn to_string(&self) -> (s: String)
        requires
            self.wf(),
        ensures
            s@ == rgba_text(self@),
    {
        let mut out = String::new();
        out.append("rgba(");
        push_dec(&mut out, self.rgb.red() as u32);
        out.append(",");
        push_dec(&mut out, self.rgb.green() as u32);
        out.append(",");
        push_dec(&mut out, self.rgb.blue() as u32);
        out.append(",");
        push_alpha(&mut out, self.a);
        out.append(")");
        proof {
            reveal_strlit("rgba(");
            reveal_strlit(",");
            reveal_strlit(")");
        }
        assert(out@ =~= rgba_text(self@));
        out
    }

    pub fn red(&self) -> (v: u8)
        ensures
            v == self@.0,
    {
        self.rgb.red()
    }

    pub fn set_red(&mut self, red: u8)
        ensures
            final(self)@ == (red as int, old(self)@.1, old(self)@.2, old(self)@.3),
    {
        self.rgb.set_red(red);
    }

    pub fn green(&self) -> (v: u8)
        ensures
            v == self@.1,
    {
        self.rgb.green()
    }

    pub fn set_green(&mut self, green: u8)
        ensures
            final(self)@ == (old(self)@.0, green as int, old(self)@.2, old(self)@.3),
    {
        self.rgb.set_green(green);
    }

    pub fn blue(&self) -> (v: u8)
        ensures
            v == self@.2,
    {
        self.rgb.blue()
    }

    pub fn set_blue(&mut self, blue: u8)
        ensures
            final(self)@ == (old(self)@.0, old(self)@.1, blue as int, old(self)@.3),
    {
        self.rgb.set_blue(blue);
    }

    /// The alpha, in alpha units.
    pub fn alpha(&self) -> (a: u32)
        ensures
            a == self@.3,
    {
        self.a
    }

    /// Sets the alpha, clamped to `ALPHA_ONE`.
    pub fn set_alpha(&mut self, alpha: u32)
        ensures
            final(self)@ == (old(self)@.0, old(self)@.1, old(self)@.2, clamp_alpha(alpha as int)),
            final(self).wf(),
    {
        self.a = if alpha > ALPHA_ONE {
            ALPHA_ONE
        } else {
            alpha
        };
    }

    /// Mixes `other` into this colour, with weight `weight` (in alpha units,
    /// half when `None`) on `other`; both the channels and the alpha are
    /// blended, the channels weighted by the alphas as well.
    pub fn mix(&self, other: RGBA, weight: Option<u32>) -> (m: RGBA)
        requires
            self.wf(),
            other.wf(),
            weight matches Some(w) ==> w <= ALPHA_ONE,
        ensures
            m@ == mix_of(self@, other@, mix_weight(weight)),
            m.wf(),
    {
        let p = match weight {
            Some(w) => w as u64,
            None => (ALPHA_ONE / 2) as u64,
        };
        let u = ALPHA_ONE as u64;
        let (ba, oa) = (self.a as u64, other.a as u64);
        assert(p * (u + oa - ba) <= 2 * 25500 * 25500 && (u - p) * (u - oa + ba) <= 2 * 25500
            * 25500) by (nonlinear_arith)
            requires
                p <= 25500,
                u == 25500,
                oa <= 25500,
                ba <= 25500,
        ;
        let w1 = p * (u + oa - ba);
        let w2 = (u - p) * (u - oa + ba);
        let r = mix_channel_exec(w1, w2, p, self.rgb.red(), other.rgb.red());
        let g = mix_channel_exec(w1, w2, p, self.rgb.green(), other.rgb.green());
        let b = mix_channel_exec(w1, w2, p, self.rgb.blue(), other.rgb.blue());
        assert(oa * p + ba * (u - p) <= 25500 * 25500) by (nonlinear_arith)
            requires
                p <= 25500,
                u == 25500,
                oa <= 25500,
                ba <= 25500,
        ;
        proof {
            crate::common::lemma_round_ratio_bound(
                (oa * p + ba * (u - p)) as int,
                25500,
                25500,
            );
        }
        let a = (2 * (oa * p + ba * (u - p)) + u) / (2 * u);
        RGBA::new(r, g, b, a as u32)
    }

    /// Lowers the alpha by `ratio` of itself (`ratio` in alpha units, so
    /// `ALPHA_ONE` is a ratio of one), clamped to `[0, 1]`.
    pub fn fade(&mut self, ratio: i32)
        requires
            old(self).wf(),
        ensures
            final(self)@ == (
                old(self)@.0,
                old(self)@.1,
                old(self)@.2,
                scale_alpha(old(self)@.3, ALPHA_ONE - ratio),
            ),
            final(self).wf(),
    {
        self.a = scaled_alpha(self.a, ALPHA_ONE as i64 - ratio as i64);
    }

    /// Raises the alpha by `ratio` of itself (`ratio` in alpha units),
    /// clamped to `[0, 1]`.
    pub fn opaquer(&mut self, ratio: i32)
        requires
            old(self).wf(),
        ensures
            final(self)@ == (
                old(self)@.0,
                old(self)@.1,
                old(self)@.2,
                scale_alpha(old(self)@.3, ALPHA_ONE + ratio),
            ),
            final(self).wf(),
    {
        self.a = scaled_alpha(self.a, ALPHA_ONE as i64 + ratio as i64);
    }

    /// The grey of the same luma `0.3 r + 0.59 g + 0.11 b` (truncated), with
    /// the same alpha.
    pub fn grayscale(&self) -> (c: RGBA)
        requires
            self.wf(),
        ensures
            c@ == gray_of(self@),
            c.wf(),
    {
        let v = ((30 * self.rgb.red() as u32 + 59 * self.rgb.green() as u32 + 11
            * self.rgb.blue() as u32) / 100) as u8;
        RGBA::new(v, v, v, self.a)
    }

    /// Every channel `v` turned to `255 - v`; the alpha is kept.
    pub fn negate(&self) -> (c: RGBA)
        requires
            self.wf(),
        ensures
            c@ == negate_of(self@),
            c.wf(),
    {
        RGBA::new(255 - self.rgb.red(), 255 - self.rgb.green(), 255 - self.rgb.blue(), self.a)
    }

    /// A colour drawn at random, with an alpha in whole hundredths.
    pub fn random() -> (c: RGBA)
        ensures
            c.wf(),
            c@.3 % (ALPHA_HUNDREDTH as int) == 0,
    {
        let rgb = RGB::random();
        let a = random_below(101) * ALPHA_HUNDREDTH;
        RGBA { rgb, a }
    }
}

fn scaled_alpha(a: u32, f: i64) -> (r: u32)
    requires
        a <= ALPHA_ONE,
        -(u32::MAX as int) <= f <= 2 * u32::MAX,
    ensures
        r == scale_alpha(a as int, f as int),
        r <= ALPHA_ONE,
{
    if f <= 0 {
        return 0;
    }
    let f = f as u64;
    let a = a as u64;
    assert(a * f <= 25500 * (2 * u32::MAX)) by (nonlinear_arith)
        requires
            a <= 25500,
            f <= 2 * u32::MAX,
    ;
    let q = (2 * (a * f) + ALPHA_ONE as u64) / (2 * ALPHA_ONE as u64);
    if q > ALPHA_ONE as u64 {
        ALPHA_ONE
    } else {
        q as u32
    }
}

} // verus!
