//! Conversions between seven colour encodings (Hex, RGB, RGBA, HSL, HSLA, HSV
//! and CMYK), their text forms, and alpha-aware blending.
//!
//! All arithmetic is exact: an alpha is held as a whole number of units of
//! `1 / ALPHA_ONE`, percentages and degrees as whole numbers, and every
//! rounding step is stated in the contracts.
pub mod blend;
pub mod cmyk;
pub mod common;
pub mod convert;
pub mod hex;
pub mod hsl;
pub mod hsla;
pub mod hsv;
pub mod laws;
pub mod rgb;
pub mod rgba;
pub mod text;

pub use cmyk::CMYK;
pub use common::{ColorError, ALPHA_HUNDREDTH, ALPHA_ONE};
pub use hex::Hex;
pub use hsl::HSL;
pub use hsla::HSLA;
pub use hsv::HSV;
pub use rgb::RGB;
pub use rgba::RGBA;
