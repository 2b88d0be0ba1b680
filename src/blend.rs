//! Blending lifted to every colour type: the colour is taken to RGBA, the
//! operation applied there, and the result taken back to the same type.
use crate::cmyk::CMYK;
use crate::common::{cmyk_of3, hsl_of3, hsv_of3, rgb_of_cmyk4, rgb_of_hsl3, rgb_of_hsv3, ALPHA_ONE};
use crate::convert::{hsla_of_rgba, opaque, rgba_of_hsla};
use crate::hex::Hex;
use crate::hsl::HSL;
use crate::hsla::HSLA;
use crate::hsv::HSV;
use crate::rgb::{dark, RGB};
use crate::rgba::{flatten, gray_of, mix_of, mix_weight, negate_of, RGBA};
use vstd::prelude::*;

verus! {

impl RGB {
    /// The grey of the same luma, kept in this type.
    pub fn grayscale(&self) -> (c: RGB)
        ensures
            c@ == flatten(gray_of(opaque(self@))),
    {
        self.to_rgba().grayscale().to_rgb()
    }

    /// The complementary colour, kept in this type.
    pub fn negate(&self) -> (c: RGB)
        ensures
            c@ == flatten(negate_of(opaque(self@))),
    {
        self.to_rgba().negate().to_rgb()
    }

    /// Mixes `other` into this colour as `RGBA::mix` does, kept in this type.
    pub fn mix(&self, other: RGBA, weight: Option<u32>) -> (c: RGB)
        requires
            other.wf(),
            weight matches Some(w) ==> w <= ALPHA_ONE,
        ensures
            c@ == flatten(mix_of(opaque(self@), other@, mix_weight(weight))),
    {
        self.to_rgba().mix(other, weight).to_rgb()
    }
}

impl Hex {
    /// The grey of the same luma, kept in this type.
    pub fn grayscale(&self) -> (c: Hex)
        requires
            self.wf(),
        ensures
            c@ == gray_of(self@),
            c.wf(),
    {
        self.to_rgba().grayscale().to_hex()
    }

    /// The complementary colour, kept in this type.
    pub fn negate(&self) -> (c: Hex)
        requires
            self.wf(),
        ensures
            c@ == negate_of(self@),
            c.wf(),
    {
        self.to_rgba().negate().to_hex()
    }

    /// Mixes `other` into this colour as `RGBA::mix` does, kept in this type.
    pub fn mix(&self, other: RGBA, weight: Option<u32>) -> (c: Hex)
        requires
            self.wf(),
            other.wf(),
            weight matches Some(w) ==> w <= ALPHA_ONE,
        ensures
            c@ == mix_of(self@, other@, mix_weight(weight)),
            c.wf(),
    {
        self.to_rgba().mix(other, weight).to_hex()
    }

    /// The colour, taken to RGB, has luma below 192.
    pub fn is_dark(&self) -> (d: bool)
        requires
            self.wf(),
        ensures
            d == dark(flatten(self@)),
    {
        self.to_rgb().is_dark()
    }

    pub fn is_light(&self) -> (l: bool)
        requires
            self.wf(),
        ensures
            l == !dark(flatten(self@)),
    {
        !self.is_dark()
    }
}

impl HSL {
    /// The grey of the same luma, kept in this type.
    pub fn grayscale(&self) -> (c: HSL)
        requires
            self.wf(),
        ensures
            c@ == hsl_of3(flatten(gray_of(opaque(rgb_of_hsl3(self@))))),
            c.wf(),
    {
        self.to_rgba().grayscale().to_hsl()
    }

    /// The complementary colour, kept in this type.
    pub fn negate(&self) -> (c: HSL)
        requires
            self.wf(),
        ensures
            c@ == hsl_of3(flatten(negate_of(opaque(rgb_of_hsl3(self@))))),
            c.wf(),
    {
        self.to_rgba().negate().to_hsl()
    }

    /// Mixes `other` into this colour as `RGBA::mix` does, kept in this type.
    pub fn mix(&self, other: RGBA, weight: Option<u32>) -> (c: HSL)
        requires
            self.wf(),
            other.wf(),
            weight matches Some(w) ==> w <= ALPHA_ONE,
        ensures
            c@ == hsl_of3(flatten(mix_of(opaque(rgb_of_hsl3(self@)), other@, mix_weight(weight)))),
            c.wf(),
    {
        self.to_rgba().mix(other, weight).to_hsl()
    }

    /// The colour, taken to RGB, has luma below 192.
    pub fn is_dark(&self) -> (d: bool)
        requires
            self.wf(),
        ensures
            d == dark(flatten(opaque(rgb_of_hsl3(self@)))),
    {
        self.to_rgb().is_dark()
    }

    pub fn is_light(&self) -> (l: bool)
        requires
            self.wf(),
        ensures
            l == !dark(flatten(opaque(rgb_of_hsl3(self@)))),
    {
        !self.is_dark()
    }
}

impl HSLA {
    /// The grey of the same luma, kept in this type.
    pub fn grayscale(&self) -> (c: HSLA)
        requires
            self.wf(),
        ensures
            c@ == hsla_of_rgba(gray_of(rgba_of_hsla(self@))),
            c.wf(),
    {
        self.to_rgba().grayscale().to_hsla()
    }

    /// The complementary colour, kept in this type.
    pub fn negate(&self) -> (c: HSLA)
        requires
            self.wf(),
        ensures
            c@ == hsla_of_rgba(negate_of(rgba_of_hsla(self@))),
            c.wf(),
    {
        self.to_rgba().negate().to_hsla()
    }

    /// Mixes `other` into this colour as `RGBA::mix` does, kept in this type.
    pub fn mix(&self, other: RGBA, weight: Option<u32>) -> (c: HSLA)
        requires
            self.wf(),
            other.wf(),
            weight matches Some(w) ==> w <= ALPHA_ONE,
        ensures
            c@ == hsla_of_rgba(mix_of(rgba_of_hsla(self@), other@, mix_weight(weight))),
            c.wf(),
    {
        self.to_rgba().mix(other, weight).to_hsla()
    }

    /// The colour, taken to RGB, has luma below 192.
    pub fn is_dark(&self) -> (d: bool)
        requires
            self.wf(),
        ensures
            d == dark(flatten(rgba_of_hsla(self@))),
    {
        self.to_rgb().is_dark()
    }

    pub fn is_light(&self) -> (l: bool)
        requires
            self.wf(),
        ensures
            l == !dark(flatten(rgba_of_hsla(self@))),
    {
        !self.is_dark()
    }
}

impl HSV {
    /// The grey of the same luma, kept in this type.
    pub fn grayscale(&self) -> (c: HSV)
        requires
            self.wf(),
        ensures
            c@ == hsv_of3(flatten(gray_of(opaque(rgb_of_hsv3(self@))))),
            c.wf(),
    {
        self.to_rgba().grayscale().to_hsv()
    }

    /// The complementary colour, kept in this type.
    pub fn negate(&self) -> (c: HSV)
        requires
            self.wf(),
        ensures
            c@ == hsv_of3(flatten(negate_of(opaque(rgb_of_hsv3(self@))))),
            c.wf(),
    {
        self.to_rgba().negate().to_hsv()
    }

    /// Mixes `other` into this colour as `RGBA::mix` does, kept in this type.
    pub fn mix(&self, other: RGBA, weight: Option<u32>) -> (c: HSV)
        requires
            self.wf(),
            other.wf(),
            weight matches Some(w) ==> w <= ALPHA_ONE,
        ensures
            c@ == hsv_of3(flatten(mix_of(opaque(rgb_of_hsv3(self@)), other@, mix_weight(weight)))),
            c.wf(),
    {
        self.to_rgba().mix(other, weight).to_hsv()
    }

    /// The colour, taken to RGB, has luma below 192.
    pub fn is_dark(&self) -> (d: bool)
        requires
            self.wf(),
        ensures
            d == dark(flatten(opaque(rgb_of_hsv3(self@)))),
    {
        self.to_rgb().is_dark()
    }

    pub fn is_light(&self) -> (l: bool)
        requires
            self.wf(),
        ensures
            l == !dark(flatten(opaque(rgb_of_hsv3(self@)))),
    {
        !self.is_dark()
    }
}

impl CMYK {
    /// The grey of the same luma, kept in this type.
    pub fn grayscale(&self) -> (c: CMYK)
        requires
            self.wf(),
        ensures
            c@ == cmyk_of3(flatten(gray_of(opaque(rgb_of_cmyk4(self@))))),
            c.wf(),
    {
        self.to_rgba().grayscale().to_cmyk()
    }

    /// The complementary colour, kept in this type.
    pub fn negate(&self) -> (c: CMYK)
        requires
            self.wf(),
        ensures
            c@ == cmyk_of3(flatten(negate_of(opaque(rgb_of_cmyk4(self@))))),
            c.wf(),
    {
        self.to_rgba().negate().to_cmyk()
    }

    /// Mixes `other` into this colour as `RGBA::mix` does, kept in this type.
    pub fn mix(&self, other: RGBA, weight: Option<u32>) -> (c: CMYK)
        requires
            self.wf(),
            other.wf(),
            weight matches Some(w) ==> w <= ALPHA_ONE,
        ensures
            c@ == cmyk_of3(flatten(mix_of(opaque(rgb_of_cmyk4(self@)), other@, mix_weight(weight)))),
            c.wf(),
    {
        self.to_rgba().mix(other, weight).to_cmyk()
    }

    /// The colour, taken to RGB, has luma below 192.
    pub fn is_dark(&self) -> (d: bool)
        requires
            self.wf(),
        ensures
            d == dark(flatten(opaque(rgb_of_cmyk4(self@)))),
    {
        self.to_rgb().is_dark()
    }

    pub fn is_light(&self) -> (l: bool)
        requires
            self.wf(),
        ensures
            l == !dark(flatten(opaque(rgb_of_cmyk4(self@)))),
    {
        !self.is_dark()
    }
}

impl RGBA {
    /// The colour, laid over opaque white, has luma below 192.
    pub fn is_dark(&self) -> (d: bool)
        requires
            self.wf(),
        ensures
            d == dark(flatten(self@)),
    {
        self.to_rgb().is_dark()
    }

    pub fn is_light(&self) -> (l: bool)
        requires
            self.wf(),
        ensures
            l == !dark(flatten(self@)),
    {
        !self.is_dark()
    }
}

} // verus!
