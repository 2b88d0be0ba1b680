//! Cyan, magenta, yellow and black inks.
use crate::common::{clamp_percent, format_error, format_message, value_error, ColorError};
use crate::text::{call_field_ranges, call_fields, chars_of, dec, push_dec, read_uint_field, uint_field};
use vstd::prelude::*;

verus! {

/// A colour as four inks in percent: cyan, magenta, yellow and black.
#[derive(Debug, Clone, Copy, PartialEq, Eq, Structural)]
pub struct CMYK {
    c: u8,
    m: u8,
    y: u8,
    k: u8,
}

impl View for CMYK {
    type V = (int, int, int, int);

    closed spec fn view(&self) -> (int, int, int, int) {
        (self.c as int, self.m as int, self.y as int, self.k as int)
    }
}

/// Every ink within `[0, 100]`.
pub open spec fn cmyk_range(t: (int, int, int, int)) -> bool {
    0 <= t.0 <= 100 && 0 <= t.1 <= 100 && 0 <= t.2 <= 100 && 0 <= t.3 <= 100
}

/// The head of the text form.
pub open spec fn cmyk_head() -> Seq<char> {
    seq!['c', 'm', 'y', 'k', '(']
}

/// The four bytes that `cmyk(c,m,y,k)` holds; `None` where the text has
/// another shape or a field is not a byte.
pub open spec fn cmyk_fields(s: Seq<char>) -> Option<(int, int, int, int)> {
    match call_fields(s, cmyk_head()) {
        Some(f) => if f.len() == 4 && uint_field(f[0], 255) is Some && uint_field(f[1], 255) is Some
            && uint_field(f[2], 255) is Some && uint_field(f[3], 255) is Some {
            Some(
                (
                    uint_field(f[0], 255)->0,
                    uint_field(f[1], 255)->0,
                    uint_field(f[2], 255)->0,
                    uint_field(f[3], 255)->0,
                ),
            )
        } else {
            None
        },
        None => None,
    }
}

/// The text form `cmyk(c,m,y,k)` in decimal.
pub open spec fn cmyk_text(c: (int, int, int, int)) -> Seq<char> {
    cmyk_head() + dec(c.0) + seq![','] + dec(c.1) + seq![','] + dec(c.2) + seq![','] + dec(c.3)
        + seq![')']
}

fn clamp_ink(v: u8) -> (r: u8)
    ensures
        r == clamp_percent(v as int),
{
    if v <= 100 {
        v
    } else {
        100
    }
}

impl CMYK {
    pub open spec fn wf(&self) -> bool {
        cmyk_range(self@)
    }

    /// A colour from inks already known to be in range.
    pub(crate) fn new(c: u8, m: u8, y: u8, k: u8) -> (r: CMYK)
        requires
            cmyk_range((c as int, m as int, y as int, k as int)),
        ensures
            r@ == (c as int, m as int, y as int, k as int),
            r.wf(),
    {
        CMYK { c, m, y, k }
    }

    /// A colour from four inks; fails with a value error where one exceeds
    /// 100.
    pub fn from_tuple(value: (u8, u8, u8, u8)) -> (res: Result<CMYK, ColorError>)
        ensures
            if cmyk_range((value.0 as int, value.1 as int, value.2 as int, value.3 as int)) {
                res matches Ok(r) && r@ == (
                    value.0 as int,
                    value.1 as int,
                    value.2 as int,
                    value.3 as int,
                )
            } else {
                res matches Err(e) && e is ValueErr
            },
    {
        if value.0 > 100 || value.1 > 100 || value.2 > 100 || value.3 > 100 {
            let vals = vec![value.0 as u32, value.1 as u32, value.2 as u32, value.3 as u32];
            return Err(value_error("CMYK", &vals, "every ink must be within 0~100"));
        }
        Ok(CMYK::new(value.0, value.1, value.2, value.3))
    }

    /// Reads `cmyk(c,m,y,k)`: case and white space around the whole and
    /// around each field are ignored.
    pub fn parse(s: &str) -> (res: Result<CMYK, ColorError>)
        ensures
            match cmyk_fields(s@) {
                Some(t) => if cmyk_range(t) {
                    res matches Ok(c) && c@ == t
                } else {
                    res matches Err(e) && e is ValueErr
                },
                None => res matches Err(ColorError::FormatErr(m)) && m@ == format_message(
                    seq!['C', 'M', 'Y', 'K'],
                    s@,
                ),
            },
    {
        proof {
            reveal_strlit("CMYK");
        }
        assert("CMYK"@ =~= seq!['C', 'M', 'Y', 'K']);
        let v = chars_of(s);
        let head = chars_of("cmyk(");
        proof {
            reveal_strlit("cmyk(");
        }
        assert(head@ =~= cmyk_head());
        let ranges = match call_field_ranges(&v, &head) {
            Some(rs) => rs,
            None => return Err(format_error("CMYK", s)),
        };
        if ranges.len() != 4 {
            return Err(format_error("CMYK", s));
        }
        let ghost f = call_fields(v@, head@)->0;
        assert(v@.subrange(ranges@[0].0 as int, ranges@[0].1 as int) == f[0]);
        assert(v@.subrange(ranges@[1].0 as int, ranges@[1].1 as int) == f[1]);
        assert(v@.subrange(ranges@[2].0 as int, ranges@[2].1 as int) == f[2]);
        assert(v@.subrange(ranges@[3].0 as int, ranges@[3].1 as int) == f[3]);
        let c = read_uint_field(&v, ranges[0].0, ranges[0].1, 255);
        let m = read_uint_field(&v, ranges[1].0, ranges[1].1, 255);
        let y = read_uint_field(&v, ranges[2].0, ranges[2].1, 255);
        let k = read_uint_field(&v, ranges[3].0, ranges[3].1, 255);
        match (c, m, y, k) {
            (Some(c), Some(m), Some(y), Some(k)) => CMYK::from_tuple(
                (c as u8, m as u8, y as u8, k as u8),
            ),
            _ => Err(format_error("CMYK", s)),
        }
    }

    /// The text form `cmyk(c,m,y,k)`.
    pub fn to_string(&self) -> (s: String)
        ensures
            s@ == cmyk_text(self@),
    {
        let mut out = String::new();
        out.append("cmyk(");
        push_dec(&mut out, self.c as u32);
        out.append(",");
        push_dec(&mut out, self.m as u32);
        out.append(",");
        push_dec(&mut out, self.y as u32);
        out.append(",");
        push_dec(&mut out, self.k as u32);
        out.append(")");
        proof {
            reveal_strlit("cmyk(");
            reveal_strlit(",");
            reveal_strlit(")");
        }
        assert(out@ =~= cmyk_text(self@));
        out
    }

    pub fn cyan(&self) -> (v: u8)
        ensures
            v == self@.0,
    {
        self.c
    }

    /// Sets the cyan ink, clamped to 100.
    pub fn set_cyan(&mut self, cyan: u8)
        ensures
            final(self)@ == (clamp_percent(cyan as int), old(self)@.1, old(self)@.2, old(self)@.3),
    {
        self.c = clamp_ink(cyan);
    }

    pub fn magenta(&self) -> (v: u8)
        ensures
            v == self@.1,
    {
        self.m
    }

    /// Sets the magenta ink, clamped to 100.
    pub fn set_magenta(&mut self, magenta: u8)
        ensures
            final(self)@ == (old(self)@.0, clamp_percent(magenta as int), old(self)@.2, old(self)@.3),
    {
        self.m = clamp_ink(magenta);
    }

    pub fn yellow(&self) -> (v: u8)
        ensures
            v == self@.2,
    {
        self.y
    }

    /// Sets the yellow ink, clamped to 100.
    pub fn set_yellow(&mut self, yellow: u8)
        ensures
            final(self)@ == (old(self)@.0, old(self)@.1, clamp_percent(yellow as int), old(self)@.3),
    {
        self.y = clamp_ink(yellow);
    }

    pub fn black(&self) -> (v: u8)
        ensures
            v == self@.3,
    {
        self.k
    }

    /// Sets the black ink, clamped to 100.
    pub fn set_black(&mut self, black: u8)
        ensures
            final(self)@ == (old(self)@.0, old(self)@.1, old(self)@.2, clamp_percent(black as int)),
    {
        self.k = clamp_ink(black);
    }
}

} // verus!
