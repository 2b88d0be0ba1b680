//! Hue, saturation and lightness with an alpha channel.
use crate::common::{
    clamp_hue, clamp_percent, format_error, format_message, random_below, value_error, ColorError,
    ALPHA_HUNDREDTH, ALPHA_ONE,
};
use crate::hsl::{hsl_range, HSL};
use crate::rgba::clamp_alpha;
use crate::text::{
    alpha_field, alpha_text, call_field_ranges, call_fields, chars_of, dec, percent_field,
    push_alpha, push_dec, read_alpha_field, read_percent_field,
};
use vstd::prelude::*;

verus! {

/// A colour as hue, saturation and lightness, and an alpha in units of
/// `1 / ALPHA_ONE`.
#[derive(Debug, Clone, Copy, PartialEq, Eq, Structural)]
pub struct HSLA {
    hsl: HSL,
    a: u32,
}

impl View for HSLA {
    type V = (int, int, int, int);

    closed spec fn view(&self) -> (int, int, int, int) {
        (self.hsl@.0, self.hsl@.1, self.hsl@.2, self.a as int)
    }
}

/// Hue, saturation and lightness in range, alpha within `[0, 1]`.
pub open spec fn hsla_range(t: (int, int, int, int)) -> bool {
    hsl_range((t.0, t.1, t.2)) && 0 <= t.3 <= ALPHA_ONE
}

/// The head of the text form.
pub open spec fn hsla_head() -> Seq<char> {
    seq!['h', 's', 'l', 'a', '(']
}

/// What `hsla(h,s%,l%,a)` holds: three numbers (the percent signs are
/// optional), whether the alpha lies in `[0, 1]`, and the alpha in alpha
/// units where it does; `None` where the text has another shape or a field
/// is not a number of its kind.
pub open spec fn hsla_fields(s: Seq<char>) -> Option<(int, int, int, bool, int)> {
    match call_fields(s, hsla_head()) {
        Some(f) => if f.len() == 4 && percent_field(f[0], u32::MAX as int) is Some
            && percent_field(f[1], u32::MAX as int) is Some
            && percent_field(f[2], u32::MAX as int) is Some
            && alpha_field(f[3]) is Some {
            Some(
                (
                    percent_field(f[0], u32::MAX as int)->0,
                    percent_field(f[1], u32::MAX as int)->0,
                    percent_field(f[2], u32::MAX as int)->0,
                    alpha_field(f[3]).unwrap().0,
                    alpha_field(f[3]).unwrap().1,
                ),
            )
        } else {
            None
        },
        None => None,
    }
}

/// The text form `hsla(h,s%,l%,a)`, with the alpha to two decimals.
pub open spec fn hsla_text(c: (int, int, int, int)) -> Seq<char> {
    hsla_head() + dec(c.0) + seq![','] + dec(c.1) + seq!['%', ','] + dec(c.2) + seq!['%', ',']
        + alpha_text(c.3) + seq![')']
}

impl HSLA {
    /// Every field is non-negative.
    pub proof fn lemma_nonneg(&self)
        ensures
            0 <= self@.0 && 0 <= self@.1 && 0 <= self@.2 && 0 <= self@.3,
    {
        self.hsl.lemma_nonneg();
    }

    pub open spec fn wf(&self) -> bool {
        hsla_range(self@)
    }

    /// A colour from fields already known to be in range.
    pub(crate) fn new(h: u32, s: u32, l: u32, a: u32) -> (c: HSLA)
        requires
            hsla_range((h as int, s as int, l as int, a as int)),
        ensures
            c@ == (h as int, s as int, l as int, a as int),
            c.wf(),
    {
        HSLA { hsl: HSL::new(h, s, l), a }
    }

    /// A colour from hue, saturation, lightness and an alpha in alpha units;
    /// fails with a value error where one is out of range.
    pub fn from_tuple(value: (u32, u32, u32, u32)) -> (res: Result<HSLA, ColorError>)
        ensures
            if hsla_range((value.0 as int, value.1 as int, value.2 as int, value.3 as int)) {
                res matches Ok(c) && c@ == (
                    value.0 as int,
                    value.1 as int,
                    value.2 as int,
                    value.3 as int,
                )
            } else {
                res matches Err(e) && e is ValueErr
            },
    {
        if value.0 > 360 || value.1 > 100 || value.2 > 100 || value.3 > ALPHA_ONE {
            let vals = vec![value.0, value.1, value.2, value.3];
            return Err(
                value_error(
                    "HSLA",
                    &vals,
                    "hue must be within 0~360, saturation and lightness within 0~100, \
                     alpha within 0~1 (0~25500 units)",
                ),
            );
        }
        Ok(HSLA::new(value.0, value.1, value.2, value.3))
    }

    /// Reads `hsla(h,s%,l%,a)` with a decimal alpha: case and white space
    /// around the whole and around each field are ignored, and the percent
    /// signs are optional. A field out of range is a value error; an alpha
    /// in range is rounded to alpha units.
    pub fn parse(s: &str) -> (res: Result<HSLA, ColorError>)
        ensures
            match hsla_fields(s@) {
                Some(t) => if t.3 && hsl_range((t.0, t.1, t.2)) {
                    res matches Ok(c) && c@ == (t.0, t.1, t.2, t.4)
                } else {
                    res matches Err(e) && e is ValueErr
                },
                None => res matches Err(ColorError::FormatErr(m)) && m@ == format_message(
                    seq!['H', 'S', 'L', 'A'],
                    s@,
                ),
            },
    {
        proof {
            reveal_strlit("HSLA");
        }
        assert("HSLA"@ =~= seq!['H', 'S', 'L', 'A']);
        let v = chars_of(s);
        let head = chars_of("hsla(");
        proof {
            reveal_strlit("hsla(");
        }
        assert(head@ =~= hsla_head());
        let ranges = match call_field_ranges(&v, &head) {
            Some(rs) => rs,
            None => return Err(format_error("HSLA", s)),
        };
        if ranges.len() != 4 {
            return Err(format_error("HSLA", s));
        }
        let ghost f = call_fields(v@, head@)->0;
        assert(v@.subrange(ranges@[0].0 as int, ranges@[0].1 as int) == f[0]);
        assert(v@.subrange(ranges@[1].0 as int, ranges@[1].1 as int) == f[1]);
        assert(v@.subrange(ranges@[2].0 as int, ranges@[2].1 as int) == f[2]);
        assert(v@.subrange(ranges@[3].0 as int, ranges@[3].1 as int) == f[3]);
        let h = read_percent_field(&v, ranges[0].0, ranges[0].1, u32::MAX);
        let sa = read_percent_field(&v, ranges[1].0, ranges[1].1, u32::MAX);
        let l = read_percent_field(&v, ranges[2].0, ranges[2].1, u32::MAX);
        let a = read_alpha_field(&v, ranges[3].0, ranges[3].1);
        match (h, sa, l, a) {
            (Some(h), Some(sa), Some(l), Some((in_range, a))) => {
                if !in_range {
                    let vals = vec![h, sa, l];
                    return Err(value_error("HSLA", &vals, "the alpha must be within 0~1"));
                }
                proof {
                    crate::text::lemma_alpha_field_bound(f[3]);
                }
                HSLA::from_tuple((h, sa, l, a))
            },
            _ => Err(format_error("HSLA", s)),
        }
    }

    /// The text form `hsla(h,s%,l%,a)`, with the alpha to two decimals.
    pub fn to_string(&self) -> (s: String)
        requires
            self.wf(),
        ensures
            s@ == hsla_text(self@),
    {
        let mut out = String::new();
        out.append("hsla(");
        push_dec(&mut out, self.hsl.hue());
        out.append(",");
        push_dec(&mut out, self.hsl.saturation());
        out.append("%,");
        push_dec(&mut out, self.hsl.lightness());
        out.append("%,");
        push_alpha(&mut out, self.a);
        out.append(")");
        proof {
            reveal_strlit("hsla(");
            reveal_strlit(",");
            reveal_strlit("%,");
            reveal_strlit(")");
        }
        assert(out@ =~= hsla_text(self@));
        out
    }

    pub fn hue(&self) -> (v: u32)
        ensures
            v == self@.0,
    {
        self.hsl.hue()
    }

    /// Sets the hue, clamped to 360.
    pub fn set_hue(&mut self, hue: u32)
        ensures
            final(self)@ == (clamp_hue(hue as int), old(self)@.1, old(self)@.2, old(self)@.3),
    {
        self.hsl.set_hue(hue);
    }

    pub fn saturation(&self) -> (v: u32)
        ensures
            v == self@.1,
    {
        self.hsl.saturation()
    }

    /// Sets the saturation, clamped to 100.
    pub fn set_saturation(&mut self, saturation: u32)
        ensures
            final(self)@ == (old(self)@.0, clamp_percent(saturation as int), old(self)@.2, old(self)@.3),
    {
        self.hsl.set_saturation(saturation);
    }

    pub fn lightness(&self) -> (v: u32)
        ensures
            v == self@.2,
    {
        self.hsl.lightness()
    }

    /// Sets the lightness, clamped to 100.
    pub fn set_lightness(&mut self, lightness: u32)
        ensures
            final(self)@ == (old(self)@.0, old(self)@.1, clamp_percent(lightness as int), old(self)@.3),
    {
        self.hsl.set_lightness(lightness);
    }

    /// The alpha, in alpha units.
    pub fn alpha(&self) -> (a: u32)
        ensures
            a == self@.3,
    {
        self.a
    }

    /// Sets the alpha, clamped to `ALPHA_ONE`.
    pub fn set_alpha(&mut self, alpha: u32)
        ensures
            final(self)@ == (old(self)@.0, old(self)@.1, old(self)@.2, clamp_alpha(alpha as int)),
    {
        self.a = if alpha > ALPHA_ONE {
            ALPHA_ONE
        } else {
            alpha
        };
    }

    /// A colour drawn at random, with an alpha in whole hundredths.
    pub fn random() -> (c: HSLA)
        ensures
            c.wf(),
            c@.3 % (ALPHA_HUNDREDTH as int) == 0,
    {
        let hsl = HSL::random();
        let a = random_below(101) * ALPHA_HUNDREDTH;
        HSLA { hsl, a }
    }
}

} // verus!
