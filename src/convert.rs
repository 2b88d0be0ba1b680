//! Conversions between every pair of colour types. Each goes through RGB or
//! RGBA; an alpha is laid over opaque white where the target has none, and
//! a target with alpha gets full opacity from a source without one.
use crate::cmyk::CMYK;
use crate::common::{
    calc_rgb_with_alpha, cmyk_of, cmyk_to_rgb, hsl_of, hsl_of3, hsl_to_rgb, hsv_of, hsv_to_rgb,
    rgb_of_cmyk, rgb_of_hsl, rgb_of_hsl3, rgb_of_hsv, rgb_to_cmyk, rgb_to_hsl, rgb_to_hsv, ALPHA_ONE,
};
use crate::hex::Hex;
use crate::hsl::HSL;
use crate::hsla::HSLA;
use crate::hsv::HSV;
use crate::rgb::RGB;
use crate::rgba::{flatten, RGBA};
use vstd::prelude::*;

verus! {

/// Three channels with full opacity.
pub open spec fn opaque(t: (int, int, int)) -> (int, int, int, int) {
    (t.0, t.1, t.2, ALPHA_ONE as int)
}

/// The first three of four parts.
pub open spec fn first3(t: (int, int, int, int)) -> (int, int, int) {
    (t.0, t.1, t.2)
}

/// Three parts and an alpha.
pub open spec fn with_alpha(t: (int, int, int), a: int) -> (int, int, int, int) {
    (t.0, t.1, t.2, a)
}

/// The RGBA of an HSLA colour: its hue, saturation and lightness taken to
/// bytes, with the alpha kept.
pub open spec fn rgba_of_hsla(c: (int, int, int, int)) -> (int, int, int, int) {
    with_alpha(rgb_of_hsl3(first3(c)), c.3)
}

/// The HSLA of an RGBA colour: its bytes taken to hue, saturation and
/// lightness, with the alpha kept.
pub open spec fn hsla_of_rgba(c: (int, int, int, int)) -> (int, int, int, int) {
    with_alpha(hsl_of3(first3(c)), c.3)
}

impl RGB {
    pub fn to_rgba(&self) -> (c: RGBA)
        ensures
            c@ == opaque(self@),
            c.wf(),
    {
        RGBA::new(self.red(), self.green(), self.blue(), ALPHA_ONE)
    }

    pub fn to_hex(&self) -> (c: Hex)
        ensures
            c@ == opaque(self@),
            c.wf(),
    {
        Hex::new(self.red(), self.green(), self.blue(), ALPHA_ONE)
    }

    pub fn to_hsl(&self) -> (c: HSL)
        ensures
            c@ == hsl_of(self@.0, self@.1, self@.2),
            c.wf(),
    {
        let (h, s, l) = rgb_to_hsl(self.red(), self.green(), self.blue());
        HSL::new(h, s, l)
    }

    pub fn to_hsla(&self) -> (c: HSLA)
        ensures
            c@ == with_alpha(hsl_of(self@.0, self@.1, self@.2), ALPHA_ONE as int),
            c.wf(),
    {
        let (h, s, l) = rgb_to_hsl(self.red(), self.green(), self.blue());
        HSLA::new(h, s, l, ALPHA_ONE)
    }

    pub fn to_hsv(&self) -> (c: HSV)
        ensures
            c@ == hsv_of(self@.0, self@.1, self@.2),
            c.wf(),
    {
        let (h, s, v) = rgb_to_hsv(self.red(), self.green(), self.blue());
        HSV::new(h, s, v)
    }

    pub fn to_cmyk(&self) -> (c: CMYK)
        ensures
            c@ == cmyk_of(self@.0, self@.1, self@.2),
            c.wf(),
    {
        let (c, m, y, k) = rgb_to_cmyk(self.red(), self.green(), self.blue());
        CMYK::new(c, m, y, k)
    }
}

impl RGBA {
    /// The colour laid over opaque white.
    pub fn to_rgb(&self) -> (c: RGB)
        requires
            self.wf(),
        ensures
            c@ == flatten(self@),
    {
        let a = self.alpha();
        RGB::new(
            calc_rgb_with_alpha(self.red(), a),
            calc_rgb_with_alpha(self.green(), a),
            calc_rgb_with_alpha(self.blue(), a),
        )
    }

    pub fn to_hex(&self) -> (c: Hex)
        requires
            self.wf(),
        ensures
            c@ == self@,
            c.wf(),
    {
        Hex::new(self.red(), self.green(), self.blue(), self.alpha())
    }

    /// HSL of the colour laid over opaque white.
    pub fn to_hsl(&self) -> (c: HSL)
        requires
            self.wf(),
        ensures
            c@ == hsl_of(flatten(self@).0, flatten(self@).1, flatten(self@).2),
            c.wf(),
    {
        self.to_rgb().to_hsl()
    }

    /// HSL of the channels, with the alpha kept.
    pub fn to_hsla(&self) -> (c: HSLA)
        requires
            self.wf(),
        ensures
            c@ == with_alpha(hsl_of(self@.0, self@.1, self@.2), self@.3),
            c.wf(),
    {
        let (h, s, l) = rgb_to_hsl(self.red(), self.green(), self.blue());
        HSLA::new(h, s, l, self.alpha())
    }

    /// HSV of the colour laid over opaque white.
    pub fn to_hsv(&self) -> (c: HSV)
        requires
            self.wf(),
        ensures
            c@ == hsv_of(flatten(self@).0, flatten(self@).1, flatten(self@).2),
            c.wf(),
    {
        self.to_rgb().to_hsv()
    }

    /// CMYK of the colour laid over opaque white.
    pub fn to_cmyk(&self) -> (c: CMYK)
        requires
            self.wf(),
        ensures
            c@ == cmyk_of(flatten(self@).0, flatten(self@).1, flatten(self@).2),
            c.wf(),
    {
        self.to_rgb().to_cmyk()
    }
}

impl Hex {
    pub fn to_rgba(&self) -> (c: RGBA)
        requires
            self.wf(),
        ensures
            c@ == self@,
            c.wf(),
    {
        let (r, g, b, a) = self.parts();
        RGBA::new(r, g, b, a)
    }

    /// The colour laid over opaque white.
    pub fn to_rgb(&self) -> (c: RGB)
        requires
            self.wf(),
        ensures
            c@ == flatten(self@),
    {
        self.to_rgba().to_rgb()
    }

    pub fn to_hsl(&self) -> (c: HSL)
        requires
            self.wf(),
        ensures
            c@ == hsl_of(flatten(self@).0, flatten(self@).1, flatten(self@).2),
            c.wf(),
    {
        self.to_rgba().to_hsl()
    }

    pub fn to_hsla(&self) -> (c: HSLA)
        requires
            self.wf(),
        ensures
            c@ == with_alpha(hsl_of(self@.0, self@.1, self@.2), self@.3),
            c.wf(),
    {
        self.to_rgba().to_hsla()
    }

    pub fn to_hsv(&self) -> (c: HSV)
        requires
            self.wf(),
        ensures
            c@ == hsv_of(flatten(self@).0, flatten(self@).1, flatten(self@).2),
            c.wf(),
    {
        self.to_rgba().to_hsv()
    }

    pub fn to_cmyk(&self) -> (c: CMYK)
        requires
            self.wf(),
        ensures
            c@ == cmyk_of(flatten(self@).0, flatten(self@).1, flatten(self@).2),
            c.wf(),
    {
        self.to_rgba().to_cmyk()
    }
}

impl HSL {
    pub fn to_rgb(&self) -> (c: RGB)
        requires
            self.wf(),
        ensures
            c@ == rgb_of_hsl(self@.0, self@.1, self@.2),
    {
        let (r, g, b) = hsl_to_rgb(self.hue(), self.saturation(), self.lightness());
        RGB::new(r, g, b)
    }

    pub fn to_rgba(&self) -> (c: RGBA)
        requires
            self.wf(),
        ensures
            c@ == opaque(rgb_of_hsl(self@.0, self@.1, self@.2)),
            c.wf(),
    {
        self.to_rgb().to_rgba()
    }

    pub fn to_hex(&self) -> (c: Hex)
        requires
            self.wf(),
        ensures
            c@ == opaque(rgb_of_hsl(self@.0, self@.1, self@.2)),
            c.wf(),
    {
        self.to_rgb().to_hex()
    }

    pub fn to_hsla(&self) -> (c: HSLA)
        requires
            self.wf(),
        ensures
            c@ == with_alpha(self@, ALPHA_ONE as int),
            c.wf(),
    {
        HSLA::new(self.hue(), self.saturation(), self.lightness(), ALPHA_ONE)
    }

    pub fn to_hsv(&self) -> (c: HSV)
        requires
            self.wf(),
        ensures
            c@ == hsv_of(
                rgb_of_hsl(self@.0, self@.1, self@.2).0,
                rgb_of_hsl(self@.0, self@.1, self@.2).1,
                rgb_of_hsl(self@.0, self@.1, self@.2).2,
            ),
            c.wf(),
    {
        self.to_rgb().to_hsv()
    }

    pub fn to_cmyk(&self) -> (c: CMYK)
        requires
            self.wf(),
        ensures
            c@ == cmyk_of(
                rgb_of_hsl(self@.0, self@.1, self@.2).0,
                rgb_of_hsl(self@.0, self@.1, self@.2).1,
                rgb_of_hsl(self@.0, self@.1, self@.2).2,
            ),
            c.wf(),
    {
        self.to_rgb().to_cmyk()
    }
}

impl HSLA {
    /// RGB of the hue, saturation and lightness, with the alpha kept.
    pub fn to_rgba(&self) -> (c: RGBA)
        requires
            self.wf(),
        ensures
            c@ == with_alpha(rgb_of_hsl(self@.0, self@.1, self@.2), self@.3),
            c.wf(),
    {
        let (r, g, b) = hsl_to_rgb(self.hue(), self.saturation(), self.lightness());
        RGBA::new(r, g, b, self.alpha())
    }

    /// The colour laid over opaque white.
    pub fn to_rgb(&self) -> (c: RGB)
        requires
            self.wf(),
        ensures
            c@ == flatten(with_alpha(rgb_of_hsl(self@.0, self@.1, self@.2), self@.3)),
    {
        self.to_rgba().to_rgb()
    }

    pub fn to_hex(&self) -> (c: Hex)
        requires
            self.wf(),
        ensures
            c@ == with_alpha(rgb_of_hsl(self@.0, self@.1, self@.2), self@.3),
            c.wf(),
    {
        self.to_rgba().to_hex()
    }

    /// HSL of the colour laid over opaque white.
    pub fn to_hsl(&self) -> (c: HSL)
        requires
            self.wf(),
        ensures
            c@ == hsl_of(
                flatten(with_alpha(rgb_of_hsl(self@.0, self@.1, self@.2), self@.3)).0,
                flatten(with_alpha(rgb_of_hsl(self@.0, self@.1, self@.2), self@.3)).1,
                flatten(with_alpha(rgb_of_hsl(self@.0, self@.1, self@.2), self@.3)).2,
            ),
            c.wf(),
    {
        self.to_rgba().to_hsl()
    }

    /// HSV of the colour laid over opaque white.
    pub fn to_hsv(&self) -> (c: HSV)
        requires
            self.wf(),
        ensures
            c@ == hsv_of(
                flatten(with_alpha(rgb_of_hsl(self@.0, self@.1, self@.2), self@.3)).0,
                flatten(with_alpha(rgb_of_hsl(self@.0, self@.1, self@.2), self@.3)).1,
                flatten(with_alpha(rgb_of_hsl(self@.0, self@.1, self@.2), self@.3)).2,
            ),
            c.wf(),
    {
        self.to_rgba().to_hsv()
    }

    /// CMYK of the colour laid over opaque white.
    pub fn to_cmyk(&self) -> (c: CMYK)
        requires
            self.wf(),
        ensures
            c@ == cmyk_of(
                flatten(with_alpha(rgb_of_hsl(self@.0, self@.1, self@.2), self@.3)).0,
                flatten(with_alpha(rgb_of_hsl(self@.0, self@.1, self@.2), self@.3)).1,
                flatten(with_alpha(rgb_of_hsl(self@.0, self@.1, self@.2), self@.3)).2,
            ),
            c.wf(),
    {
        self.to_rgba().to_cmyk()
    }
}

impl HSV {
    pub fn to_rgb(&self) -> (c: RGB)
        requires
            self.wf(),
        ensures
            c@ == rgb_of_hsv(self@.0, self@.1, self@.2),
    {
        let (r, g, b) = hsv_to_rgb(self.hue(), self.saturation(), self.value());
        RGB::new(r, g, b)
    }

    pub fn to_rgba(&self) -> (c: RGBA)
        requires
            self.wf(),
        ensures
            c@ == opaque(rgb_of_hsv(self@.0, self@.1, self@.2)),
            c.wf(),
    {
        self.to_rgb().to_rgba()
    }

    pub fn to_hex(&self) -> (c: Hex)
        requires
            self.wf(),
        ensures
            c@ == opaque(rgb_of_hsv(self@.0, self@.1, self@.2)),
            c.wf(),
    {
        self.to_rgb().to_hex()
    }

    pub fn to_hsl(&self) -> (c: HSL)
        requires
            self.wf(),
        ensures
            c@ == hsl_of(
                rgb_of_hsv(self@.0, self@.1, self@.2).0,
                rgb_of_hsv(self@.0, self@.1, self@.2).1,
                rgb_of_hsv(self@.0, self@.1, self@.2).2,
            ),
            c.wf(),
    {
        self.to_rgb().to_hsl()
    }

    pub fn to_hsla(&self) -> (c: HSLA)
        requires
            self.wf(),
        ensures
            c@ == with_alpha(
                hsl_of(
                    rgb_of_hsv(self@.0, self@.1, self@.2).0,
                    rgb_of_hsv(self@.0, self@.1, self@.2).1,
                    rgb_of_hsv(self@.0, self@.1, self@.2).2,
                ),
                ALPHA_ONE as int,
            ),
            c.wf(),
    {
        self.to_rgb().to_hsla()
    }

    pub fn to_cmyk(&self) -> (c: CMYK)
        requires
            self.wf(),
        ensures
            c@ == cmyk_of(
                rgb_of_hsv(self@.0, self@.1, self@.2).0,
                rgb_of_hsv(self@.0, self@.1, self@.2).1,
                rgb_of_hsv(self@.0, self@.1, self@.2).2,
            ),
            c.wf(),
    {
        self.to_rgb().to_cmyk()
    }
}

impl CMYK {
    pub fn to_rgb(&self) -> (c: RGB)
        requires
            self.wf(),
        ensures
            c@ == rgb_of_cmyk(self@.0, self@.1, self@.2, self@.3),
    {
        let (r, g, b) = cmyk_to_rgb(self.cyan(), self.magenta(), self.yellow(), self.black());
        RGB::new(r, g, b)
    }

    pub fn to_rgba(&self) -> (c: RGBA)
        requires
            self.wf(),
        ensures
            c@ == opaque(rgb_of_cmyk(self@.0, self@.1, self@.2, self@.3)),
            c.wf(),
    {
        self.to_rgb().to_rgba()
    }

    pub fn to_hex(&self) -> (c: Hex)
        requires
            self.wf(),
        ensures
            c@ == opaque(rgb_of_cmyk(self@.0, self@.1, self@.2, self@.3)),
            c.wf(),
    {
        self.to_rgb().to_hex()
    }

    pub fn to_hsl(&self) -> (c: HSL)
        requires
            self.wf(),
        ensures
            c@ == hsl_of(
                rgb_of_cmyk(self@.0, self@.1, self@.2, self@.3).0,
                rgb_of_cmyk(self@.0, self@.1, self@.2, self@.3).1,
                rgb_of_cmyk(self@.0, self@.1, self@.2, self@.3).2,
            ),
            c.wf(),
    {
        self.to_rgb().to_hsl()
    }

    pub fn to_hsla(&self) -> (c: HSLA)
        requires
            self.wf(),
        ensures
            c@ == with_alpha(
                hsl_of(
                    rgb_of_cmyk(self@.0, self@.1, self@.2, self@.3).0,
                    rgb_of_cmyk(self@.0, self@.1, self@.2, self@.3).1,
                    rgb_of_cmyk(self@.0, self@.1, self@.2, self@.3).2,
                ),
                ALPHA_ONE as int,
            ),
            c.wf(),
    {
        self.to_rgb().to_hsla()
    }

    pub fn to_hsv(&self) -> (c: HSV)
        requires
            self.wf(),
        ensures
            c@ == hsv_of(
                rgb_of_cmyk(self@.0, self@.1, self@.2, self@.3).0,
                rgb_of_cmyk(self@.0, self@.1, self@.2, self@.3).1,
                rgb_of_cmyk(self@.0, self@.1, self@.2, self@.3).2,
            ),
            c.wf(),
    {
        self.to_rgb().to_hsv()
    }
}

} // verus!
