//! The `#RRGGBB` and `#RRGGBBAA` forms.
use crate::common::{format_error, format_message, process_hex, ColorError, ALPHA_ONE};
use crate::text::{chars_of, hex2, hex_chunks, push_char, push_hex2, trim, trim_range};
use vstd::prelude::*;

verus! {

/// A colour as three bytes and an alpha in units of `1 / ALPHA_ONE`, read
/// from and written as hexadecimal digits.
#[derive(Debug, Clone, Copy, PartialEq, Eq, Structural)]
pub struct Hex {
    r: u8,
    g: u8,
    b: u8,
    a: u32,
}

impl View for Hex {
    type V = (int, int, int, int);

    closed spec fn view(&self) -> (int, int, int, int) {
        (self.r as int, self.g as int, self.b as int, self.a as int)
    }
}

/// What a hex colour holds: `#` and then 3 digits (each one doubled), 6
/// digits, or 8 digits whose last pair is the alpha as a byte; white space
/// around it and case are ignored. `None` where the text has another shape.
pub open spec fn hex_parts(s: Seq<char>) -> Option<(int, int, int, int)> {
    let t = trim(s);
    if t.len() >= 1 && t[0] == '#' {
        let d = t.drop_first();
        if d.len() == 3 && hex_chunks(d, 1).len() == 3 {
            let v = hex_chunks(d, 1);
            Some((v[0] as int, v[1] as int, v[2] as int, ALPHA_ONE as int))
        } else if d.len() == 6 && hex_chunks(d, 2).len() == 3 {
            let v = hex_chunks(d, 2);
            Some((v[0] as int, v[1] as int, v[2] as int, ALPHA_ONE as int))
        } else if d.len() == 8 && hex_chunks(d, 2).len() == 4 {
            let v = hex_chunks(d, 2);
            Some((v[0] as int, v[1] as int, v[2] as int, v[3] * 100))
        } else {
            None
        }
    } else {
        None
    }
}

/// The alpha as a byte: `alpha * 255`, truncated.
pub open spec fn alpha_byte(a: int) -> int {
    a / 100
}

/// `#RRGGBB`, with the alpha byte appended where the alpha is not one.
pub open spec fn hex_text(c: (int, int, int, int)) -> Seq<char> {
    seq!['#'] + hex2(c.0) + hex2(c.1) + hex2(c.2) + if c.3 == ALPHA_ONE {
        Seq::empty()
    } else {
        hex2(alpha_byte(c.3))
    }
}

impl Hex {
    /// Every channel is a byte.
    pub proof fn lemma_bytes(&self)
        ensures
            0 <= self@.0 <= 255 && 0 <= self@.1 <= 255 && 0 <= self@.2 <= 255 && 0 <= self@.3,
    {
    }

    pub open spec fn wf(&self) -> bool {
        0 <= self@.3 <= ALPHA_ONE
    }

    /// A colour from bytes and an alpha already known to be in range.
    pub(crate) fn new(r: u8, g: u8, b: u8, a: u32) -> (c: Hex)
        requires
            a <= ALPHA_ONE,
        ensures
            c@ == (r as int, g as int, b as int, a as int),
            c.wf(),
    {
        Hex { r, g, b, a }
    }

    /// The three bytes and the alpha.
    pub fn parts(&self) -> (p: (u8, u8, u8, u32))
        ensures
            (p.0 as int, p.1 as int, p.2 as int, p.3 as int) == self@,
    {
        (self.r, self.g, self.b, self.a)
    }

    /// Reads `#RGB`, `#RRGGBB` or `#RRGGBBAA`.
    pub fn parse(s: &str) -> (res: Result<Hex, ColorError>)
        ensures
            match hex_parts(s@) {
                Some(t) => res matches Ok(c) && c@ == t,
                None => res matches Err(ColorError::FormatErr(m)) && m@ == format_message(
                    seq!['H', 'e', 'x'],
                    s@,
                ),
            },
    {
        proof {
            reveal_strlit("Hex");
        }
        assert("Hex"@ =~= seq!['H', 'e', 'x']);
        let v = chars_of(s);
        let (lo, hi) = trim_range(&v, 0, v.len());
        assert(v@.subrange(0, v@.len() as int) =~= v@);
        if hi - lo < 1 || v[lo] != '#' {
            return Err(format_error("Hex", s));
        }
        let ghost d = v@.subrange(lo + 1, hi as int);
        assert(d =~= trim(s@).drop_first());
        let mut digits = String::new();
        let mut i = lo + 1;
        while i < hi
            invariant
                lo + 1 <= i <= hi <= v@.len(),
                digits@ == v@.subrange(lo + 1, i as int),
            decreases hi - i,
        {
            push_char(&mut digits, v[i]);
            i += 1;
            assert(digits@ =~= v@.subrange(lo + 1, i as int));
        }
        let n = hi - lo - 1;
        if n == 3 {
            let vals = process_hex(digits.as_str(), 1);
            if vals.len() == 3 {
                return Ok(Hex::new(vals[0], vals[1], vals[2], ALPHA_ONE));
            }
        } else if n == 6 {
            let vals = process_hex(digits.as_str(), 2);
            if vals.len() == 3 {
                return Ok(Hex::new(vals[0], vals[1], vals[2], ALPHA_ONE));
            }
        } else if n == 8 {
            let vals = process_hex(digits.as_str(), 2);
            if vals.len() == 4 {
                return Ok(Hex::new(vals[0], vals[1], vals[2], vals[3] as u32 * 100));
            }
        }
        Err(format_error("Hex", s))
    }

    /// `#RRGGBB` in upper case, with the alpha byte appended where the alpha
    /// is not one.
    pub fn to_string(&self) -> (s: String)
        requires
            self.wf(),
        ensures
            s@ == hex_text(self@),
    {
        let mut out = String::new();
        push_char(&mut out, '#');
        push_hex2(&mut out, self.r);
        push_hex2(&mut out, self.g);
        push_hex2(&mut out, self.b);
        if self.a != ALPHA_ONE {
            push_hex2(&mut out, (self.a / 100) as u8);
        }
        assert(out@ =~= hex_text(self@));
        out
    }

    /// `#RRGGBBAA`: the alpha byte always comes last.
    pub fn to_hex_alpha(&self) -> (s: String)
        requires
            self.wf(),
        ensures
            s@ == seq!['#'] + hex2(self@.0) + hex2(self@.1) + hex2(self@.2) + hex2(
                alpha_byte(self@.3),
            ),
    {
        let mut out = String::new();
        push_char(&mut out, '#');
        push_hex2(&mut out, self.r);
        push_hex2(&mut out, self.g);
        push_hex2(&mut out, self.b);
        push_hex2(&mut out, (self.a / 100) as u8);
        assert(out@ =~= seq!['#'] + hex2(self@.0) + hex2(self@.1) + hex2(self@.2) + hex2(
            alpha_byte(self@.3),
        ));
        out
    }

    /// `#AARRGGBB`: the alpha byte always comes first.
    pub fn to_alpha_hex(&self) -> (s: String)
        requires
            self.wf(),
        ensures
            s@ == seq!['#'] + hex2(alpha_byte(self@.3)) + hex2(self@.0) + hex2(self@.1) + hex2(
                self@.2,
            ),
    {
        let mut out = String::new();
        push_char(&mut out, '#');
        push_hex2(&mut out, (self.a / 100) as u8);
        push_hex2(&mut out, self.r);
        push_hex2(&mut out, self.g);
        push_hex2(&mut out, self.b);
        assert(out@ =~= seq!['#'] + hex2(alpha_byte(self@.3)) + hex2(self@.0) + hex2(self@.1)
            + hex2(self@.2));
        out
    }
}

} // verus!
