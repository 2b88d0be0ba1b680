//! Red, green and blue bytes.
use crate::common::{format_error, format_message, ColorError};
use crate::text::{call_field_ranges, call_fields, chars_of, dec, push_dec, read_uint_field, uint_field};
use vstd::prelude::*;

verus! {

/// A colour as three bytes: red, green and blue.
#[derive(Debug, Clone, Copy, PartialEq, Eq, Structural)]
pub struct RGB {
    r: u8,
    g: u8,
    b: u8,
}

impl View for RGB {
    type V = (int, int, int);

    closed spec fn view(&self) -> (int, int, int) {
        (self.r as int, self.g as int, self.b as int)
    }
}

/// The head of the text form.
pub open spec fn rgb_head() -> Seq<char> {
    seq!['r', 'g', 'b', '(']
}

/// The three channels that `rgb(r,g,b)` holds; `None` where the text has
/// another shape or a channel is not a byte.
pub open spec fn rgb_fields(s: Seq<char>) -> Option<(int, int, int)> {
    match call_fields(s, rgb_head()) {
        Some(f) => if f.len() == 3 && uint_field(f[0], 255) is Some && uint_field(f[1], 255) is Some
            && uint_field(f[2], 255) is Some {
            Some((uint_field(f[0], 255)->0, uint_field(f[1], 255)->0, uint_field(f[2], 255)->0))
        } else {
            None
        },
        None => None,
    }
}

/// The text form `rgb(r,g,b)` in decimal.
pub open spec fn rgb_text(c: (int, int, int)) -> Seq<char> {
    rgb_head() + dec(c.0) + seq![','] + dec(c.1) + seq![','] + dec(c.2) + seq![')']
}

/// Luma `0.299 r + 0.587 g + 0.114 b` is below 192.
pub open spec fn dark(c: (int, int, int)) -> bool {
    299 * c.0 + 587 * c.1 + 114 * c.2 < 192000
}

impl RGB {
    /// Every channel is a byte.
    pub proof fn lemma_bytes(&self)
        ensures
            0 <= self@.0 <= 255 && 0 <= self@.1 <= 255 && 0 <= self@.2 <= 255,
    {
    }

    /// A colour from its three channels.
    pub fn new(r: u8, g: u8, b: u8) -> (c: RGB)
        ensures
            c@ == (r as int, g as int, b as int),
    {
        RGB { r, g, b }
    }

    /// A colour from a tuple of bytes; every tuple is a colour.
    pub fn from_tuple(value: (u8, u8, u8)) -> (res: Result<RGB, ColorError>)
        ensures
            res matches Ok(c) && c@ == (value.0 as int, value.1 as int, value.2 as int),
    {
        Ok(RGB::new(value.0, value.1, value.2))
    }

    /// Reads `rgb(r,g,b)`: case and white space around the whole and
    /// around each field are ignored.
    pub fn parse(s: &str) -> (res: Result<RGB, ColorError>)
        ensures
            match rgb_fields(s@) {
                Some(t) => res matches Ok(c) && c@ == t,
                None => res matches Err(ColorError::FormatErr(m)) && m@ == format_message(
                    seq!['R', 'G', 'B'],
                    s@,
                ),
            },
    {
        proof {
            reveal_strlit("RGB");
        }
        assert("RGB"@ =~= seq!['R', 'G', 'B']);
        let v = chars_of(s);
        let head = chars_of("rgb(");
        proof {
            reveal_strlit("rgb(");
        }
        assert(head@ =~= rgb_head());
        let ranges = match call_field_ranges(&v, &head) {
            Some(rs) => rs,
            None => return Err(format_error("RGB", s)),
        };
        if ranges.len() != 3 {
            return Err(format_error("RGB", s));
        }
        let ghost f = call_fields(v@, head@)->0;
        assert(v@.subrange(ranges@[0].0 as int, ranges@[0].1 as int) == f[0]);
        assert(v@.subrange(ranges@[1].0 as int, ranges@[1].1 as int) == f[1]);
        assert(v@.subrange(ranges@[2].0 as int, ranges@[2].1 as int) == f[2]);
        let r = read_uint_field(&v, ranges[0].0, ranges[0].1, 255);
        let g = read_uint_field(&v, ranges[1].0, ranges[1].1, 255);
        let b = read_uint_field(&v, ranges[2].0, ranges[2].1, 255);
        match (r, g, b) {
            (Some(r), Some(g), Some(b)) => Ok(RGB::new(r as u8, g as u8, b as u8)),
            _ => Err(format_error("RGB", s)),
        }
    }

    /// The text form `rgb(r,g,b)`.
    pub fn to_string(&self) -> (s: String)
        ensures
            s@ == rgb_text(self@),
    {
        let mut out = String::new();
        out.append("rgb(");
        push_dec(&mut out, self.r as u32);
        out.append(",");
        push_dec(&mut out, self.g as u32);
        out.append(",");
        push_dec(&mut out, self.b as u32);
        out.append(")");
        proof {
            reveal_strlit("rgb(");
            reveal_strlit(",");
            reveal_strlit(")");
        }
        assert(out@ =~= rgb_text(self@));
        out
    }

    pub fn red(&self) -> (v: u8)
        ensures
            v == self@.0,
    {
        self.r
    }

    pub fn set_red(&mut self, red: u8)
        ensures
            final(self)@ == (red as int, old(self)@.1, old(self)@.2),
    {
        self.r = red;
    }

    pub fn green(&self) -> (v: u8)
        ensures
            v == self@.1,
    {
        self.g
    }

    pub fn set_green(&mut self, green: u8)
        ensures
            final(self)@ == (old(self)@.0, green as int, old(self)@.2),
    {
        self.g = green;
    }

    pub fn blue(&self) -> (v: u8)
        ensures
            v == self@.2,
    {
        self.b
    }

    pub fn set_blue(&mut self, blue: u8)
        ensures
            final(self)@ == (old(self)@.0, old(self)@.1, blue as int),
    {
        self.b = blue;
    }

    /// A colour drawn at random.
    pub fn random() -> RGB {
        RGB::new(rand::random::<u8>(), rand::random::<u8>(), rand::random::<u8>())
    }

    /// Luma `0.299 r + 0.587 g + 0.114 b` is below 192.
    pub fn is_dark(&self) -> (d: bool)
        ensures
            d == dark(self@),
    {
        299 * (self.r as u32) + 587 * (self.g as u32) + 114 * (self.b as u32) < 192000
    }

    pub fn is_light(&self) -> (l: bool)
        ensures
            l == !dark(self@),
    {
        !self.is_dark()
    }
}

} // verus!
