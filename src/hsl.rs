//! Hue, saturation and lightness.
use crate::common::{
    clamp_hue, clamp_percent, format_error, format_message, random_below, value_error, ColorError,
};
use crate::text::{
    call_field_ranges, call_fields, chars_of, dec, percent_field, push_dec, read_percent_field,
};
use vstd::prelude::*;

verus! {

/// A colour as hue in degrees, saturation and lightness in percent.
#[derive(Debug, Clone, Copy, PartialEq, Eq, Structural)]
pub struct HSL {
    h: u32,
    s: u32,
    l: u32,
}

impl View for HSL {
    type V = (int, int, int);

    closed spec fn view(&self) -> (int, int, int) {
        (self.h as int, self.s as int, self.l as int)
    }
}

/// Hue within `[0, 360]`, the two percentages within `[0, 100]`.
pub open spec fn hsl_range(t: (int, int, int)) -> bool {
    0 <= t.0 <= 360 && 0 <= t.1 <= 100 && 0 <= t.2 <= 100
}

/// The head of the text form.
pub open spec fn hsl_head() -> Seq<char> {
    seq!['h', 's', 'l', '(']
}

/// The three numbers that `hsl(h,s%,l%)` holds (the percent signs are
/// optional); `None` where the text has another shape or a field is not a
/// `u32`.
pub open spec fn hsl_fields(s: Seq<char>) -> Option<(int, int, int)> {
    match call_fields(s, hsl_head()) {
        Some(f) => if f.len() == 3 && percent_field(f[0], u32::MAX as int) is Some
            && percent_field(f[1], u32::MAX as int) is Some
            && percent_field(f[2], u32::MAX as int) is Some {
            Some(
                (
                    percent_field(f[0], u32::MAX as int)->0,
                    percent_field(f[1], u32::MAX as int)->0,
                    percent_field(f[2], u32::MAX as int)->0,
                ),
            )
        } else {
            None
        },
        None => None,
    }
}

/// The text form `hsl(h,s%,l%)` in decimal.
pub open spec fn hsl_text(c: (int, int, int)) -> Seq<char> {
    hsl_head() + dec(c.0) + seq![','] + dec(c.1) + seq!['%', ','] + dec(c.2) + seq!['%', ')']
}

impl HSL {
    /// Every field is non-negative.
    pub proof fn lemma_nonneg(&self)
        ensures
            0 <= self@.0 && 0 <= self@.1 && 0 <= self@.2,
    {
    }

    pub open spec fn wf(&self) -> bool {
        hsl_range(self@)
    }

    /// A colour from fields already known to be in range.
    pub(crate) fn new(h: u32, s: u32, l: u32) -> (c: HSL)
        requires
            hsl_range((h as int, s as int, l as int)),
        ensures
            c@ == (h as int, s as int, l as int),
            c.wf(),
    {
        HSL { h, s, l: l }
    }

    /// A colour from hue, saturation and lightness; fails with a value
    /// error where one is out of range.
    pub fn from_tuple(value: (u32, u32, u32)) -> (res: Result<HSL, ColorError>)
        ensures
            if hsl_range((value.0 as int, value.1 as int, value.2 as int)) {
                res matches Ok(c) && c@ == (value.0 as int, value.1 as int, value.2 as int)
            } else {
                res matches Err(e) && e is ValueErr
            },
    {
        if value.0 > 360 || value.1 > 100 || value.2 > 100 {
            let vals = vec![value.0, value.1, value.2];
            return Err(
                value_error(
                    "HSL",
                    &vals,
                    "hue must be within 0~360, saturation and lightness within 0~100",
                ),
            );
        }
        Ok(HSL::new(value.0, value.1, value.2))
    }

    /// Reads `hsl(h,s%,l%)`: case and white space around the whole and
    /// around each field are ignored, and the percent signs are optional.
    pub fn parse(s: &str) -> (res: Result<HSL, ColorError>)
        ensures
            match hsl_fields(s@) {
                Some(t) => if hsl_range(t) {
                    res matches Ok(c) && c@ == t
                } else {
                    res matches Err(e) && e is ValueErr
                },
                None => res matches Err(ColorError::FormatErr(m)) && m@ == format_message(
                    seq!['H', 'S', 'L'],
                    s@,
                ),
            },
    {
        proof {
            reveal_strlit("HSL");
        }
        assert("HSL"@ =~= seq!['H', 'S', 'L']);
        let v = chars_of(s);
        let head = chars_of("hsl(");
        proof {
            reveal_strlit("hsl(");
        }
        assert(head@ =~= hsl_head());
        let ranges = match call_field_ranges(&v, &head) {
            Some(rs) => rs,
            None => return Err(format_error("HSL", s)),
        };
        if ranges.len() != 3 {
            return Err(format_error("HSL", s));
        }
        let ghost f = call_fields(v@, head@)->0;
        assert(v@.subrange(ranges@[0].0 as int, ranges@[0].1 as int) == f[0]);
        assert(v@.subrange(ranges@[1].0 as int, ranges@[1].1 as int) == f[1]);
        assert(v@.subrange(ranges@[2].0 as int, ranges@[2].1 as int) == f[2]);
        let h = read_percent_field(&v, ranges[0].0, ranges[0].1, u32::MAX);
        let sa = read_percent_field(&v, ranges[1].0, ranges[1].1, u32::MAX);
        let x = read_percent_field(&v, ranges[2].0, ranges[2].1, u32::MAX);
        match (h, sa, x) {
            (Some(h), Some(sa), Some(x)) => HSL::from_tuple((h, sa, x)),
            _ => Err(format_error("HSL", s)),
        }
    }

    /// The text form `hsl(h,s%,l%)`.
    pub fn to_string(&self) -> (s: String)
        ensures
            s@ == hsl_text(self@),
    {
        let mut out = String::new();
        out.append("hsl(");
        push_dec(&mut out, self.h);
        out.append(",");
        push_dec(&mut out, self.s);
        out.append("%,");
        push_dec(&mut out, self.l);
        out.append("%)");
        proof {
            reveal_strlit("hsl(");
            reveal_strlit(",");
            reveal_strlit("%,");
            reveal_strlit("%)");
        }
        assert(out@ =~= hsl_text(self@));
        out
    }

    /// A colour drawn at random.
    pub fn random() -> (c: HSL)
        ensures
            c.wf(),
    {
        HSL::new(random_below(361), random_below(101), random_below(101))
    }

    pub fn hue(&self) -> (v: u32)
        ensures
            v == self@.0,
    {
        self.h
    }

    /// Sets the hue, clamped to 360.
    pub fn set_hue(&mut self, hue: u32)
        ensures
            final(self)@ == (clamp_hue(hue as int), old(self)@.1, old(self)@.2),
    {
        self.h = if hue <= 360 {
            hue
        } else {
            360
        };
    }

    pub fn saturation(&self) -> (v: u32)
        ensures
            v == self@.1,
    {
        self.s
    }

    /// Sets the saturation, clamped to 100.
    pub fn set_saturation(&mut self, saturation: u32)
        ensures
            final(self)@ == (old(self)@.0, clamp_percent(saturation as int), old(self)@.2),
    {
        self.s = if saturation <= 100 {
            saturation
        } else {
            100
        };
    }

    pub fn lightness(&self) -> (v: u32)
        ensures
            v == self@.2,
    {
        self.l
    }

    /// Sets the lightness, clamped to 100.
    pub fn set_lightness(&mut self, lightness: u32)
        ensures
            final(self)@ == (old(self)@.0, old(self)@.1, clamp_percent(lightness as int)),
    {
        self.l = if lightness <= 100 {
            lightness
        } else {
            100
        };
    }
}

} // verus!
