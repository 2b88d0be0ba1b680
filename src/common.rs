//! The numeric kernel: channel tuples mapped between colour spaces.
use crate::text::{chars_of, hex_chunks, hex_value};
use vstd::prelude::*;

verus! {

/// The two ways in which building a colour can fail.
#[derive(Debug, Clone)]
pub enum ColorError {
    /// The text does not follow the grammar of the colour type.
    FormatErr(String),
    /// Every field was read, but one lies outside its range.
    ValueErr(String),
}

/// Alpha is held in units of 1/25500 of full opacity, so that both
/// hundredths and 1/255 steps (one byte) are exact.
pub const ALPHA_ONE: u32 = 25500;

/// One hundredth of full opacity, in alpha units.
pub const ALPHA_HUNDREDTH: u32 = 255;

/// The message of a format error: the colour type and the text refused,
/// as in `RGB: 'rgb(1,2)' format error!`.
pub open spec fn format_message(kind: Seq<char>, input: Seq<char>) -> Seq<char> {
    let tail = seq!['\'', ' ', 'f', 'o', 'r', 'm', 'a', 't', ' ', 'e', 'r', 'r', 'o', 'r', '!'];
    kind + seq![':', ' ', '\''] + input + tail
}

/// The error for text that does not follow the grammar of `kind`.
pub(crate) fn format_error(kind: &str, input: &str) -> (e: ColorError)
    ensures
        e matches ColorError::FormatErr(m) && m@ == format_message(kind@, input@),
{
    let mut m = String::new();
    m.append(kind);
    m.append(": '");
    m.append(input);
    m.append("' format error!");
    proof {
        reveal_strlit(": '");
        reveal_strlit("' format error!");
    }
    assert(m@ =~= format_message(kind@, input@));
    ColorError::FormatErr(m)
}

/// The error for fields of `kind` outside their ranges, naming the values
/// and the ranges.
pub(crate) fn value_error(kind: &str, vals: &Vec<u32>, ranges: &str) -> (e: ColorError)
    ensures
        e is ValueErr,
{
    let mut m = String::new();
    m.append(kind);
    m.append(": args (");
    let mut i: usize = 0;
    while i < vals.len()
        decreases vals.len() - i,
    {
        if i > 0 {
            m.append(",");
        }
        crate::text::push_dec(&mut m, vals[i]);
        i += 1;
    }
    m.append(") value error, ");
    m.append(ranges);
    ColorError::ValueErr(m)
}

/// A hue clamped to 360.
pub open spec fn clamp_hue(h: int) -> int {
    if h <= 360 {
        h
    } else {
        360
    }
}

/// A percentage clamped to 100.
pub open spec fn clamp_percent(v: int) -> int {
    if v <= 100 {
        v
    } else {
        100
    }
}

/// Largest of three integers.
pub open spec fn max3(a: int, b: int, c: int) -> int {
    if a >= b && a >= c {
        a
    } else if b >= c {
        b
    } else {
        c
    }
}

/// Smallest of three integers.
pub open spec fn min3(a: int, b: int, c: int) -> int {
    if a <= b && a <= c {
        a
    } else if b <= c {
        b
    } else {
        c
    }
}

/// `n / d` rounded to the nearest integer, halves away from zero
/// (for `n >= 0` and `d > 0`).
pub open spec fn round_ratio(n: int, d: int) -> int {
    (2 * n + d) / (2 * d)
}

/// The hue of a chromatic byte triple, in degrees, times the chroma
/// `max - min`: the sector is chosen by the channel that is largest
/// (red first, then green), and a negative angle is moved up by 360.
pub open spec fn hue_scaled(r: int, g: int, b: int) -> int {
    let d = max3(r, g, b) - min3(r, g, b);
    if max3(r, g, b) == r {
        if g >= b {
            60 * (g - b)
        } else {
            360 * d - 60 * (b - g)
        }
    } else if max3(r, g, b) == g {
        60 * (b - r) + 120 * d
    } else {
        60 * (r - g) + 240 * d
    }
}

/// Hue in whole degrees; 0 for a grey.
pub open spec fn hue_of(r: int, g: int, b: int) -> int {
    let d = max3(r, g, b) - min3(r, g, b);
    if d == 0 {
        0
    } else {
        round_ratio(hue_scaled(r, g, b), d)
    }
}

/// HSV of a byte triple: hue in degrees, saturation `chroma / max` and
/// value `max / 255`, both in whole percent.
pub open spec fn hsv_of(r: int, g: int, b: int) -> (int, int, int) {
    let mx = max3(r, g, b);
    let d = mx - min3(r, g, b);
    (
        hue_of(r, g, b),
        if mx == 0 { 0 } else { round_ratio(100 * d, mx) },
        round_ratio(100 * mx, 255),
    )
}


/// A rounded ratio stays within the bound that its numerator has.
pub proof fn lemma_round_ratio_bound(n: int, d: int, k: int)
    requires
        0 <= n <= k * d,
        d > 0,
        k >= 0,
    ensures
        0 <= round_ratio(n, d) <= k,
{
    let q = round_ratio(n, d);
    vstd::arithmetic::div_mod::lemma_fundamental_div_mod(2 * n + d, 2 * d);
    let rem = (2 * n + d) % (2 * d);
    assert(0 <= rem < 2 * d) by {
        vstd::arithmetic::div_mod::lemma_mod_bound(2 * n + d, 2 * d);
    }
    assert(2 * n + d == 2 * d * q + rem);
    assert(0 <= q <= k) by (nonlinear_arith)
        requires
            2 * n + d == 2 * d * q + rem,
            0 <= rem < 2 * d,
            0 <= n <= k * d,
            d > 0,
    ;
}

/// Rounding keeps order.
pub proof fn lemma_round_ratio_mono(a: int, b: int, d: int)
    requires
        a <= b,
        d > 0,
    ensures
        round_ratio(a, d) <= round_ratio(b, d),
{
    vstd::arithmetic::div_mod::lemma_div_is_ordered(2 * a + d, 2 * b + d, 2 * d);
}

/// Scaling numerator and denominator alike does not change a rounded ratio.
pub proof fn lemma_round_ratio_scale(n: int, d: int, k: int)
    requires
        n >= 0,
        d > 0,
        k > 0,
    ensures
        round_ratio(k * n, k * d) == round_ratio(n, d),
{
    let y = 2 * n + d;
    assert(2 * (k * n) + k * d == k * y && 2 * (k * d) == k * (2 * d)) by (nonlinear_arith)
        requires
            y == 2 * n + d,
    ;
    vstd::arithmetic::div_mod::lemma_div_denominator(k * y, k, 2 * d);
    assert((k * y) / k == y) by {
        vstd::arithmetic::div_mod::lemma_div_multiples_vanish(y, k);
    }
}

/// The HSV, HSL and CMYK of a byte triple lie in their ranges.
pub proof fn lemma_kernel_ranges(r: int, g: int, b: int)
    requires
        0 <= r <= 255,
        0 <= g <= 255,
        0 <= b <= 255,
    ensures
        0 <= hsv_of(r, g, b).0 <= 360 && 0 <= hsv_of(r, g, b).1 <= 100 && 0 <= hsv_of(r, g, b).2
            <= 100,
        0 <= hsl_of(r, g, b).0 <= 360 && 0 <= hsl_of(r, g, b).1 <= 100 && 0 <= hsl_of(r, g, b).2
            <= 100,
        0 <= cmyk_of(r, g, b).0 <= 100 && 0 <= cmyk_of(r, g, b).1 <= 100 && 0 <= cmyk_of(
            r,
            g,
            b,
        ).2 <= 100 && 0 <= cmyk_of(r, g, b).3 <= 100,
{
    let mx = max3(r, g, b);
    let mn = min3(r, g, b);
    let d = mx - mn;
    let t = mx + mn;
    if d > 0 {
        lemma_hue_scaled_bound(r, g, b);
        lemma_round_ratio_bound(hue_scaled(r, g, b), d, 360);
        lemma_round_ratio_bound(100 * d, if t <= 255 { t } else { 510 - t }, 100);
    }
    if mx > 0 {
        lemma_round_ratio_bound(100 * d, mx, 100);
        lemma_round_ratio_bound(100 * (mx - r), mx, 100);
        lemma_round_ratio_bound(100 * (mx - g), mx, 100);
        lemma_round_ratio_bound(100 * (mx - b), mx, 100);
    }
    lemma_round_ratio_bound(100 * mx, 255, 100);
    lemma_round_ratio_bound(100 * t, 510, 100);
    lemma_round_ratio_bound(100 * (255 - mx), 255, 100);
}

/// The largest and smallest bytes built from chroma, second component and
/// match value are those of `chroma + match` and of `match` alone.
pub proof fn lemma_parts_extremes(h: int, c: int, x: int, m: int)
    requires
        0 <= x <= c,
        m >= 0,
    ensures
        max3(rgb_from_parts(h, c, x, m).0, rgb_from_parts(h, c, x, m).1, rgb_from_parts(h, c, x, m).2)
            == round_ratio(255 * (c + m), 600000),
        min3(rgb_from_parts(h, c, x, m).0, rgb_from_parts(h, c, x, m).1, rgb_from_parts(h, c, x, m).2)
            == round_ratio(255 * m, 600000),
{
    lemma_round_ratio_mono(255 * m, 255 * (x + m), 600000);
    lemma_round_ratio_mono(255 * (x + m), 255 * (c + m), 600000);
}

/// A percentage taken to a byte and back is the same percentage.
pub proof fn lemma_percent_byte_percent(v: int)
    requires
        0 <= v <= 100,
    ensures
        round_ratio(100 * round_ratio(255 * v, 100), 255) == v,
        round_ratio(100 * (255 - round_ratio(255 * (100 - v), 100)), 255) == v,
{
    let r = round_ratio(255 * v, 100);
    vstd::arithmetic::div_mod::lemma_fundamental_div_mod(510 * v + 100, 200);
    vstd::arithmetic::div_mod::lemma_mod_bound(510 * v + 100, 200);
    assert((200 * r + 255) / 510 == v);
    let w = 100 - v;
    let q = round_ratio(255 * w, 100);
    vstd::arithmetic::div_mod::lemma_fundamental_div_mod(510 * w + 100, 200);
    vstd::arithmetic::div_mod::lemma_mod_bound(510 * w + 100, 200);
    assert((2 * (100 * (255 - q)) + 255) / 510 == v);
}

/// The chroma-scaled hue lies within `[0, 360 * chroma]`.
proof fn lemma_hue_scaled_bound(r: int, g: int, b: int)
    requires
        max3(r, g, b) - min3(r, g, b) > 0,
    ensures
        0 <= hue_scaled(r, g, b) <= 360 * (max3(r, g, b) - min3(r, g, b)),
{
}

fn max_u8(a: u8, b: u8, c: u8) -> (m: u8)
    ensures
        m == max3(a as int, b as int, c as int),
{
    if a >= b && a >= c {
        a
    } else if b >= c {
        b
    } else {
        c
    }
}

fn min_u8(a: u8, b: u8, c: u8) -> (m: u8)
    ensures
        m == min3(a as int, b as int, c as int),
{
    if a <= b && a <= c {
        a
    } else if b <= c {
        b
    } else {
        c
    }
}

/// `n / d` rounded to the nearest integer, halves up.
fn round_div(n: u64, d: u64) -> (q: u64)
    requires
        d > 0,
        n <= 1_000_000_000_000,
        d <= 1_000_000_000_000,
    ensures
        q == round_ratio(n as int, d as int),
{
    (2 * n + d) / (2 * d)
}

/// Hue of a byte triple in whole degrees.
fn hue_degrees(r: u8, g: u8, b: u8) -> (h: u32)
    ensures
        h == hue_of(r as int, g as int, b as int),
        h <= 360,
{
    let mx = max_u8(r, g, b);
    let mn = min_u8(r, g, b);
    let d = (mx - mn) as u64;
    if d == 0 {
        return 0;
    }
    let (r, g, b) = (r as u64, g as u64, b as u64);
    let scaled: u64 = if mx as u64 == r {
        if g >= b {
            60 * (g - b)
        } else {
            360 * d - 60 * (b - g)
        }
    } else if mx as u64 == g {
        60 * b + 120 * d - 60 * r
    } else {
        60 * r + 240 * d - 60 * g
    };
    proof {
        lemma_hue_scaled_bound(r as int, g as int, b as int);
        lemma_round_ratio_bound(scaled as int, d as int, 360);
    }
    round_div(scaled, d) as u32
}

/// HSV of a byte triple: hue in degrees, saturation and value in percent.
pub fn rgb_to_hsv(r: u8, g: u8, b: u8) -> (hsv: (u32, u32, u32))
    ensures
        (hsv.0 as int, hsv.1 as int, hsv.2 as int) == hsv_of(r as int, g as int, b as int),
        hsv.0 <= 360,
        hsv.1 <= 100,
        hsv.2 <= 100,
{
    let mx = max_u8(r, g, b) as u64;
    let d = mx - min_u8(r, g, b) as u64;
    let h = hue_degrees(r, g, b);
    let s = if mx == 0 {
        0
    } else {
        proof {
            lemma_round_ratio_bound(100 * d as int, mx as int, 100);
        }
        round_div(100 * d, mx)
    };
    proof {
        lemma_round_ratio_bound(100 * mx as int, 255, 100);
    }
    let v = round_div(100 * mx, 255);
    (h, s as u32, v as u32)
}


/// HSL of a byte triple: hue in degrees, saturation
/// `chroma / (1 - |2 * lightness - 1|)` and lightness `(max + min) / 2`, both
/// in whole percent.
pub open spec fn hsl_of(r: int, g: int, b: int) -> (int, int, int) {
    let t = max3(r, g, b) + min3(r, g, b);
    let d = max3(r, g, b) - min3(r, g, b);
    (
        hue_of(r, g, b),
        if d == 0 {
            0
        } else {
            round_ratio(100 * d, if t <= 255 { t } else { 510 - t })
        },
        round_ratio(100 * t, 510),
    )
}

/// CMYK of a byte triple in whole percent: black is `1 - max`, and each ink
/// is `(max - channel) / max`; pure black has no ink but black.
pub open spec fn cmyk_of(r: int, g: int, b: int) -> (int, int, int, int) {
    let mx = max3(r, g, b);
    if mx == 0 {
        (0, 0, 0, 100)
    } else {
        (
            round_ratio(100 * (mx - r), mx),
            round_ratio(100 * (mx - g), mx),
            round_ratio(100 * (mx - b), mx),
            round_ratio(100 * (255 - mx), 255),
        )
    }
}

/// The byte that a CMYK ink and black leave: `255 * (1 - ink) * (1 - black)`.
pub open spec fn ink_channel(ink: int, k: int) -> int {
    round_ratio(255 * (100 - ink) * (100 - k), 10000)
}

/// RGB of a CMYK quadruple given in percent.
pub open spec fn rgb_of_cmyk(c: int, m: int, y: int, k: int) -> (int, int, int) {
    (ink_channel(c, k), ink_channel(m, k), ink_channel(y, k))
}

/// `60 * (1 - |(h / 60) mod 2 - 1|)`: the weight of the second component
/// inside a 60-degree hue sector, out of 60.
pub open spec fn hue_offset(h: int) -> int {
    let t = h % 120;
    if t >= 60 {
        60 - (t - 60)
    } else {
        60 - (60 - t)
    }
}

/// The chroma `c` and second component `x` placed by the 60-degree sector of
/// the hue; 360 degrees is the same hue as 0.
pub open spec fn sector_triple(h: int, c: int, x: int) -> (int, int, int) {
    let hh = if h == 360 { 0 } else { h };
    if hh < 60 {
        (c, x, 0)
    } else if hh < 120 {
        (x, c, 0)
    } else if hh < 180 {
        (0, c, x)
    } else if hh < 240 {
        (0, x, c)
    } else if hh < 300 {
        (x, 0, c)
    } else {
        (c, 0, x)
    }
}

/// Bytes from chroma, second component and match value, each given in
/// units of 1/600000.
pub open spec fn rgb_from_parts(h: int, c: int, x: int, m: int) -> (int, int, int) {
    let t = sector_triple(h, c, x);
    (
        round_ratio(255 * (t.0 + m), 600000),
        round_ratio(255 * (t.1 + m), 600000),
        round_ratio(255 * (t.2 + m), 600000),
    )
}

/// RGB of an HSL triple (degrees, percent, percent): chroma
/// `(1 - |2l - 1|) * s`, match value `l - chroma / 2`.
pub open spec fn rgb_of_hsl(h: int, s: int, l: int) -> (int, int, int) {
    let a = if 2 * l >= 100 { 200 - 2 * l } else { 2 * l };
    let cc = a * s;
    rgb_from_parts(h, 60 * cc, cc * hue_offset(h), 6000 * l - 30 * cc)
}

/// RGB of an HSV triple (degrees, percent, percent): chroma `v * s`, match
/// value `v - chroma`.
pub open spec fn rgb_of_hsv(h: int, s: int, v: int) -> (int, int, int) {
    let cc = v * s;
    rgb_from_parts(h, 60 * cc, cc * hue_offset(h), 60 * v * (100 - s))
}

/// `hsl_of` on a triple.
pub open spec fn hsl_of3(t: (int, int, int)) -> (int, int, int) {
    hsl_of(t.0, t.1, t.2)
}

/// `hsv_of` on a triple.
pub open spec fn hsv_of3(t: (int, int, int)) -> (int, int, int) {
    hsv_of(t.0, t.1, t.2)
}

/// `cmyk_of` on a triple.
pub open spec fn cmyk_of3(t: (int, int, int)) -> (int, int, int, int) {
    cmyk_of(t.0, t.1, t.2)
}

/// `rgb_of_hsl` on a triple.
pub open spec fn rgb_of_hsl3(t: (int, int, int)) -> (int, int, int) {
    rgb_of_hsl(t.0, t.1, t.2)
}

/// `rgb_of_hsv` on a triple.
pub open spec fn rgb_of_hsv3(t: (int, int, int)) -> (int, int, int) {
    rgb_of_hsv(t.0, t.1, t.2)
}

/// `rgb_of_cmyk` on a quadruple.
pub open spec fn rgb_of_cmyk4(t: (int, int, int, int)) -> (int, int, int) {
    rgb_of_cmyk(t.0, t.1, t.2, t.3)
}

/// HSL of a byte triple: hue in degrees, saturation and lightness in percent.
pub fn rgb_to_hsl(r: u8, g: u8, b: u8) -> (hsl: (u32, u32, u32))
    ensures
        (hsl.0 as int, hsl.1 as int, hsl.2 as int) == hsl_of(r as int, g as int, b as int),
        hsl.0 <= 360,
        hsl.1 <= 100,
        hsl.2 <= 100,
{
    let mx = max_u8(r, g, b) as u64;
    let mn = min_u8(r, g, b) as u64;
    let d = mx - mn;
    let t = mx + mn;
    let h = hue_degrees(r, g, b);
    let s = if d == 0 {
        0
    } else {
        let denom = if t <= 255 {
            t
        } else {
            510 - t
        };
        proof {
            lemma_round_ratio_bound(100 * d as int, denom as int, 100);
        }
        round_div(100 * d, denom)
    };
    proof {
        lemma_round_ratio_bound(100 * t as int, 510, 100);
    }
    let l = round_div(100 * t, 510);
    (h, s as u32, l as u32)
}

/// HSL of a byte triple, with an alpha passed through unchanged.
pub fn rgba_to_hsla(r: u8, g: u8, b: u8, a: u32) -> (hsla: (u32, u32, u32, u32))
    ensures
        (hsla.0 as int, hsla.1 as int, hsla.2 as int) == hsl_of(r as int, g as int, b as int),
        hsla.3 == a,
{
    let (h, s, l) = rgb_to_hsl(r, g, b);
    (h, s, l, a)
}

/// CMYK of a byte triple, each part in percent.
pub fn rgb_to_cmyk(r: u8, g: u8, b: u8) -> (cmyk: (u8, u8, u8, u8))
    ensures
        (cmyk.0 as int, cmyk.1 as int, cmyk.2 as int, cmyk.3 as int) == cmyk_of(
            r as int,
            g as int,
            b as int,
        ),
        cmyk.0 <= 100,
        cmyk.1 <= 100,
        cmyk.2 <= 100,
        cmyk.3 <= 100,
{
    let mx = max_u8(r, g, b) as u64;
    if mx == 0 {
        return (0, 0, 0, 100);
    }
    let (r, g, b) = (r as u64, g as u64, b as u64);
    proof {
        lemma_round_ratio_bound(100 * (mx - r) as int, mx as int, 100);
        lemma_round_ratio_bound(100 * (mx - g) as int, mx as int, 100);
        lemma_round_ratio_bound(100 * (mx - b) as int, mx as int, 100);
        lemma_round_ratio_bound(100 * (255 - mx) as int, 255, 100);
    }
    (
        round_div(100 * (mx - r), mx) as u8,
        round_div(100 * (mx - g), mx) as u8,
        round_div(100 * (mx - b), mx) as u8,
        round_div(100 * (255 - mx), 255) as u8,
    )
}

fn ink_to_channel(ink: u8, k: u8) -> (v: u8)
    requires
        ink <= 100,
        k <= 100,
    ensures
        v == ink_channel(ink as int, k as int),
{
    let a = (100 - ink) as u64;
    let t = (100 - k) as u64;
    assert(a * t <= 10000) by (nonlinear_arith)
        requires
            a <= 100,
            t <= 100,
    ;
    proof {
        lemma_round_ratio_bound(255 * (a * t) as int, 10000, 255);
        assert(255 * (a * t) == 255 * a * t) by (nonlinear_arith);
    }
    round_div(255 * (a * t), 10000) as u8
}

/// RGB of a CMYK quadruple given in percent.
pub fn cmyk_to_rgb(c: u8, m: u8, y: u8, k: u8) -> (rgb: (u8, u8, u8))
    requires
        c <= 100,
        m <= 100,
        y <= 100,
        k <= 100,
    ensures
        (rgb.0 as int, rgb.1 as int, rgb.2 as int) == rgb_of_cmyk(
            c as int,
            m as int,
            y as int,
            k as int,
        ),
{
    (ink_to_channel(c, k), ink_to_channel(m, k), ink_to_channel(y, k))
}

fn hue_offset_exec(h: u32) -> (x: u64)
    ensures
        x == hue_offset(h as int),
        x <= 60,
{
    let t = (h % 120) as u64;
    if t >= 60 {
        60 - (t - 60)
    } else {
        60 - (60 - t)
    }
}

fn part_to_channel(v: u64) -> (ch: u8)
    requires
        v <= 600000,
    ensures
        ch == round_ratio(255 * v as int, 600000),
{
    proof {
        lemma_round_ratio_bound(255 * v as int, 600000, 255);
    }
    round_div(255 * v, 600000) as u8
}

fn parts_to_rgb(h: u32, c: u64, x: u64, m: u64) -> (rgb: (u8, u8, u8))
    requires
        h <= 360,
        x <= c,
        c + m <= 600000,
    ensures
        (rgb.0 as int, rgb.1 as int, rgb.2 as int) == rgb_from_parts(
            h as int,
            c as int,
            x as int,
            m as int,
        ),
{
    let hh = if h == 360 {
        0
    } else {
        h
    };
    let (rc, gc, bc) = if hh < 60 {
        (c, x, 0)
    } else if hh < 120 {
        (x, c, 0)
    } else if hh < 180 {
        (0, c, x)
    } else if hh < 240 {
        (0, x, c)
    } else if hh < 300 {
        (x, 0, c)
    } else {
        (c, 0, x)
    };
    (part_to_channel(rc + m), part_to_channel(gc + m), part_to_channel(bc + m))
}

/// RGB of an HSL triple given in degrees, percent and percent.
pub fn hsl_to_rgb(h: u32, s: u32, l: u32) -> (rgb: (u8, u8, u8))
    requires
        h <= 360,
        s <= 100,
        l <= 100,
    ensures
        (rgb.0 as int, rgb.1 as int, rgb.2 as int) == rgb_of_hsl(h as int, s as int, l as int),
{
    let (h64, s, l) = (h as u64, s as u64, l as u64);
    let a: u64 = if 2 * l >= 100 {
        200 - 2 * l
    } else {
        2 * l
    };
    assert(a * s <= 100 * a) by (nonlinear_arith)
        requires
            s <= 100,
    ;
    let cc = a * s;
    let x = hue_offset_exec(h);
    assert(cc * x <= 60 * cc) by (nonlinear_arith)
        requires
            x <= 60,
    ;
    parts_to_rgb(h, 60 * cc, cc * x, 6000 * l - 30 * cc)
}

/// RGB of an HSV triple given in degrees, percent and percent.
pub fn hsv_to_rgb(h: u32, s: u32, v: u32) -> (rgb: (u8, u8, u8))
    requires
        h <= 360,
        s <= 100,
        v <= 100,
    ensures
        (rgb.0 as int, rgb.1 as int, rgb.2 as int) == rgb_of_hsv(h as int, s as int, v as int),
{
    let (s, v) = (s as u64, v as u64);
    assert(v * s <= 10000 && 60 * v * (100 - s) + 60 * (v * s) == 6000 * v) by (nonlinear_arith)
        requires
            s <= 100,
            v <= 100,
    ;
    let cc = v * s;
    let x = hue_offset_exec(h);
    assert(cc * x <= 60 * cc) by (nonlinear_arith)
        requires
            x <= 60,
    ;
    parts_to_rgb(h, 60 * cc, cc * x, 60 * v * (100 - s))
}

/// A channel seen through alpha `a` (in alpha units) over opaque white,
/// `v * a + 255 * (1 - a)`, truncated to a byte.
pub open spec fn composite(v: int, a: int) -> int {
    (v * a + 255 * (ALPHA_ONE - a)) / (ALPHA_ONE as int)
}

/// A channel seen through alpha over opaque white.
pub fn calc_rgb_with_alpha(v: u8, alpha: u32) -> (c: u8)
    requires
        alpha <= ALPHA_ONE,
    ensures
        c == composite(v as int, alpha as int),
{
    let (v, a) = (v as u64, alpha as u64);
    assert(v * a + 255 * (25500 - a) <= 255 * 25500) by (nonlinear_arith)
        requires
            v <= 255,
            a <= 25500,
    ;
    ((v * a + 255 * (ALPHA_ONE as u64 - a)) / ALPHA_ONE as u64) as u8
}

/// Relies on `rand::random`, which draws a value from the thread-local
/// generator; nothing is known of the value drawn.
pub assume_specification<T>[ rand::random::<T> ]() -> (r: T)
    where
        rand::distributions::Standard: rand::distributions::Distribution<T>,
;

/// A number drawn below `bound`.
pub(crate) fn random_below(bound: u32) -> (r: u32)
    requires
        bound > 0,
    ensures
        r < bound,
{
    rand::random::<u32>() % bound
}

/// Splits `hex_str` into chunks of `chunk_size` characters and reads each as
/// a byte: a chunk of one digit stands for that digit twice, a longer one
/// for its first two digits. Chunks that are not hexadecimal are left out.
pub fn process_hex(hex_str: &str, chunk_size: usize) -> (bytes: Vec<u8>)
    requires
        chunk_size >= 1,
    ensures
        bytes@ == hex_chunks(hex_str@, chunk_size as int),
{
    let v = chars_of(hex_str);
    let n = v.len();
    let mut out: Vec<u8> = Vec::new();
    let mut i: usize = 0;
    assert(v@.skip(0) =~= v@);
    assert(out@ + hex_chunks(v@, chunk_size as int) =~= hex_chunks(v@, chunk_size as int));
    while i < n
        invariant
            i <= n,
            n == v@.len(),
            v@ == hex_str@,
            chunk_size >= 1,
            hex_chunks(v@, chunk_size as int) == out@ + hex_chunks(v@.skip(i as int), chunk_size as int),
        decreases n - i,
    {
        let k = if chunk_size < n - i {
            chunk_size
        } else {
            n - i
        };
        let ghost rest = v@.skip(i as int);
        assert(rest.take(k as int) =~= v@.subrange(i as int, i + k));
        assert(rest.skip(k as int) =~= v@.skip(i + k));
        let second = if k >= 2 {
            v[i + 1]
        } else {
            v[i]
        };
        match (hex_value(v[i]), hex_value(second)) {
            (Some(x), Some(y)) => {
                assert(seq![(16 * x + y) as u8] + hex_chunks(v@.skip(i + k), chunk_size as int)
                    == hex_chunks(rest, chunk_size as int));
                assert(out@ + hex_chunks(rest, chunk_size as int) =~= out@.push((16 * x + y) as u8)
                    + hex_chunks(v@.skip(i + k), chunk_size as int));
                out.push(16 * x + y);
            },
            _ => {},
        }
        i += k;
    }
    assert(v@.skip(i as int) =~= Seq::<char>::empty());
    assert(out@ + Seq::<u8>::empty() =~= out@);
    out
}

} // verus!
