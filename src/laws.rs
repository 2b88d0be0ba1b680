//! Laws that relate several operations of the library.
use crate::cmyk::{cmyk_fields, cmyk_head, cmyk_range, cmyk_text, CMYK};
use crate::hsl::{hsl_fields, hsl_head, hsl_range, hsl_text, HSL};
use crate::hsv::{hsv_fields, hsv_head, hsv_range, hsv_text, HSV};
use crate::rgb::{rgb_fields, rgb_head, rgb_text, RGB};
use crate::common::{
    cmyk_of, cmyk_of3, hsl_of, hsl_of3, hsv_of, hsv_of3, hue_offset, ink_channel,
    lemma_kernel_ranges, lemma_parts_extremes, lemma_percent_byte_percent,
    lemma_round_ratio_bound, lemma_round_ratio_mono, lemma_round_ratio_scale, max3,
    rgb_of_cmyk, rgb_of_hsl3, rgb_of_hsv3, round_ratio, ALPHA_HUNDREDTH, ALPHA_ONE,
};
use crate::hex::{hex_parts, hex_text, Hex};
use crate::hsla::{hsla_fields, hsla_head, hsla_text, HSLA};
use crate::rgba::{rgba_fields, rgba_head, rgba_text, RGBA};
use crate::text::{
    alpha_text, dec, hex2, hex_chunks, lemma_alpha_text, lemma_call_fields, lemma_dec,
    lemma_hex2_chunks, lemma_split_four, lemma_split_three, lemma_trim_id, lemma_uint_field_dec,
};
use vstd::prelude::*;

verus! {

/// Reading the text form of an RGB colour gives the colour back.
#[verifier::spinoff_prover]
#[verifier::rlimit(40)]
pub proof fn law_rgb_text_round_trip(c: RGB)
    ensures
        rgb_fields(rgb_text(c@)) == Some(c@),
{
    c.lemma_bytes();
    let (r, g, b) = c@;
    lemma_dec(r);
    lemma_dec(g);
    lemma_dec(b);
    let body = dec(r) + seq![','] + dec(g) + seq![','] + dec(b);
    assert(rgb_text(c@) =~= rgb_head() + body + seq![')']);
    lemma_call_fields(rgb_head(), body);
    lemma_split_three(dec(r), dec(g), dec(b));
    lemma_uint_field_dec(r, 255);
    lemma_uint_field_dec(g, 255);
    lemma_uint_field_dec(b, 255);
}

/// Reading the text form of a CMYK colour gives the colour back.
#[verifier::spinoff_prover]
#[verifier::rlimit(40)]
pub proof fn law_cmyk_text_round_trip(c: CMYK)
    requires
        c.wf(),
    ensures
        cmyk_fields(cmyk_text(c@)) == Some(c@),
        cmyk_range(c@),
{
    let (cy, m, y, k) = c@;
    lemma_dec(cy);
    lemma_dec(m);
    lemma_dec(y);
    lemma_dec(k);
    let body = dec(cy) + seq![','] + dec(m) + seq![','] + dec(y) + seq![','] + dec(k);
    assert(cmyk_text(c@) =~= cmyk_head() + body + seq![')']);
    lemma_call_fields(cmyk_head(), body);
    lemma_split_four(dec(cy), dec(m), dec(y), dec(k));
    lemma_uint_field_dec(cy, 255);
    lemma_uint_field_dec(m, 255);
    lemma_uint_field_dec(y, 255);
    lemma_uint_field_dec(k, 255);
}

/// Reading the text form of an HSL colour gives the colour back.
#[verifier::spinoff_prover]
#[verifier::rlimit(40)]
pub proof fn law_hsl_text_round_trip(c: HSL)
    requires
        c.wf(),
    ensures
        hsl_fields(hsl_text(c@)) == Some(c@),
        hsl_range(c@),
{
    let (h, s, x) = c@;
    lemma_dec(h);
    lemma_dec(s);
    lemma_dec(x);
    let fs = dec(s) + seq!['%'];
    let fx = dec(x) + seq!['%'];
    assert(forall|i: int| 0 <= i < fs.len() ==> #[trigger] fs[i] != ',') by {
        assert(forall|i: int| 0 <= i < dec(s).len() ==> fs[i] == #[trigger] dec(s)[i]);
    }
    assert(forall|i: int| 0 <= i < fx.len() ==> #[trigger] fx[i] != ',') by {
        assert(forall|i: int| 0 <= i < dec(x).len() ==> fx[i] == #[trigger] dec(x)[i]);
    }
    let body = dec(h) + seq![','] + fs + seq![','] + fx;
    assert(hsl_text(c@) =~= hsl_head() + body + seq![')']);
    lemma_call_fields(hsl_head(), body);
    lemma_split_three(dec(h), fs, fx);
    lemma_uint_field_dec(h, u32::MAX as int);
    lemma_uint_field_dec(s, u32::MAX as int);
    lemma_uint_field_dec(x, u32::MAX as int);
}

/// Reading the text form of an HSV colour gives the colour back.
#[verifier::spinoff_prover]
#[verifier::rlimit(40)]
pub proof fn law_hsv_text_round_trip(c: HSV)
    requires
        c.wf(),
    ensures
        hsv_fields(hsv_text(c@)) == Some(c@),
        hsv_range(c@),
{
    let (h, s, x) = c@;
    lemma_dec(h);
    lemma_dec(s);
    lemma_dec(x);
    let fs = dec(s) + seq!['%'];
    let fx = dec(x) + seq!['%'];
    assert(forall|i: int| 0 <= i < fs.len() ==> #[trigger] fs[i] != ',') by {
        assert(forall|i: int| 0 <= i < dec(s).len() ==> fs[i] == #[trigger] dec(s)[i]);
    }
    assert(forall|i: int| 0 <= i < fx.len() ==> #[trigger] fx[i] != ',') by {
        assert(forall|i: int| 0 <= i < dec(x).len() ==> fx[i] == #[trigger] dec(x)[i]);
    }
    let body = dec(h) + seq![','] + fs + seq![','] + fx;
    assert(hsv_text(c@) =~= hsv_head() + body + seq![')']);
    lemma_call_fields(hsv_head(), body);
    lemma_split_three(dec(h), fs, fx);
    lemma_uint_field_dec(h, u32::MAX as int);
    lemma_uint_field_dec(s, u32::MAX as int);
    lemma_uint_field_dec(x, u32::MAX as int);
}

/// Reading the text form of an RGBA colour whose alpha is a whole number of
/// hundredths gives the colour back (the text keeps two decimals).
#[verifier::spinoff_prover]
#[verifier::rlimit(40)]
pub proof fn law_rgba_text_round_trip(c: RGBA)
    requires
        c.wf(),
        c@.3 % (ALPHA_HUNDREDTH as int) == 0,
    ensures
        rgba_fields(rgba_text(c@)) == Some((c@.0, c@.1, c@.2, true, c@.3)),
{
    c.lemma_bytes();
    let (r, g, b, a) = c@;
    lemma_dec(r);
    lemma_dec(g);
    lemma_dec(b);
    lemma_alpha_text(a / 255);
    assert(255 * (a / 255) == a);
    let body = dec(r) + seq![','] + dec(g) + seq![','] + dec(b) + seq![','] + alpha_text(a);
    assert(rgba_text(c@) =~= rgba_head() + body + seq![')']);
    lemma_call_fields(rgba_head(), body);
    lemma_split_four(dec(r), dec(g), dec(b), alpha_text(a));
    lemma_uint_field_dec(r, 255);
    lemma_uint_field_dec(g, 255);
    lemma_uint_field_dec(b, 255);
}

/// Reading the text form of an HSLA colour whose alpha is a whole number of
/// hundredths gives the colour back (the text keeps two decimals).
#[verifier::spinoff_prover]
#[verifier::rlimit(40)]
pub proof fn law_hsla_text_round_trip(c: HSLA)
    requires
        c.wf(),
        c@.3 % (ALPHA_HUNDREDTH as int) == 0,
    ensures
        hsla_fields(hsla_text(c@)) == Some((c@.0, c@.1, c@.2, true, c@.3)),
        hsl_range((c@.0, c@.1, c@.2)),
{
    c.lemma_nonneg();
    let (h, s, x, a) = c@;
    lemma_dec(h);
    lemma_dec(s);
    lemma_dec(x);
    lemma_alpha_text(a / 255);
    assert(255 * (a / 255) == a);
    let fs = dec(s) + seq!['%'];
    let fx = dec(x) + seq!['%'];
    assert(forall|i: int| 0 <= i < fs.len() ==> #[trigger] fs[i] != ',') by {
        assert(forall|i: int| 0 <= i < dec(s).len() ==> fs[i] == #[trigger] dec(s)[i]);
    }
    assert(forall|i: int| 0 <= i < fx.len() ==> #[trigger] fx[i] != ',') by {
        assert(forall|i: int| 0 <= i < dec(x).len() ==> fx[i] == #[trigger] dec(x)[i]);
    }
    let body = dec(h) + seq![','] + fs + seq![','] + fx + seq![','] + alpha_text(a);
    assert(hsla_text(c@) =~= hsla_head() + body + seq![')']);
    lemma_call_fields(hsla_head(), body);
    lemma_split_four(dec(h), fs, fx, alpha_text(a));
    lemma_uint_field_dec(h, u32::MAX as int);
    lemma_uint_field_dec(s, u32::MAX as int);
    lemma_uint_field_dec(x, u32::MAX as int);
}

/// Reading the hex form of a colour whose alpha is a whole byte gives the
/// colour back.
#[verifier::spinoff_prover]
#[verifier::rlimit(40)]
pub proof fn law_hex_text_round_trip(c: Hex)
    requires
        c.wf(),
        c@.3 % 100 == 0,
    ensures
        hex_parts(hex_text(c@)) == Some(c@),
{
    c.lemma_bytes();
    let (r, g, b, a) = c@;
    let ab = a / 100;
    let tail: Seq<char> = if a == ALPHA_ONE {
        Seq::empty()
    } else {
        hex2(ab)
    };
    let d = hex2(r) + hex2(g) + hex2(b) + tail;
    let t = hex_text(c@);
    assert(t =~= seq!['#'] + d);
    lemma_hex2_chunks(r, hex2(g) + hex2(b) + tail);
    lemma_hex2_chunks(g, hex2(b) + tail);
    lemma_hex2_chunks(b, tail);
    assert(d =~= hex2(r) + (hex2(g) + (hex2(b) + tail)));
    assert(hex2(g) + hex2(b) + tail =~= hex2(g) + (hex2(b) + tail));
    if a == ALPHA_ONE {
        assert(hex_chunks(tail, 2) =~= Seq::<u8>::empty());
        assert(t.last() == hex2(b)[1]);
    } else {
        lemma_hex2_chunks(ab, Seq::empty());
        assert(hex2(ab) + Seq::<char>::empty() =~= hex2(ab));
        assert(hex_chunks(Seq::<char>::empty(), 2) =~= Seq::<u8>::empty());
        assert(t.last() == hex2(ab)[1]);
    }
    lemma_trim_id(t);
    assert(t.drop_first() =~= d);
}

/// One hop through RGB keeps the value of an HSV colour read from bytes:
/// `rgb_to_hsv(hsv_to_rgb(rgb_to_hsv(r, g, b)))` has the value of
/// `rgb_to_hsv(r, g, b)`.
#[verifier::spinoff_prover]
#[verifier::rlimit(40)]
pub proof fn law_hsv_value_stable(r: int, g: int, b: int)
    requires
        0 <= r <= 255,
        0 <= g <= 255,
        0 <= b <= 255,
    ensures
        hsv_of3(rgb_of_hsv3(hsv_of(r, g, b))).2 == hsv_of(r, g, b).2,
{
    lemma_kernel_ranges(r, g, b);
    let (h, s, v) = hsv_of(r, g, b);
    let cc = v * s;
    let x = hue_offset(h);
    assert(0 <= x <= 60);
    assert(0 <= cc * x <= 60 * cc && 60 * v * (100 - s) >= 0 && 60 * cc + 60 * v * (100 - s) == 6000
        * v) by (nonlinear_arith)
        requires
            cc == v * s,
            0 <= x <= 60,
            0 <= s <= 100,
            0 <= v <= 100,
    ;
    lemma_parts_extremes(h, 60 * cc, cc * x, 60 * v * (100 - s));
    lemma_round_ratio_scale(255 * v, 100, 6000);
    assert(255 * (6000 * v) == 6000 * (255 * v));
    lemma_percent_byte_percent(v);
}

/// One hop through RGB keeps the lightness of an HSL colour read from
/// bytes: `rgb_to_hsl(hsl_to_rgb(rgb_to_hsl(r, g, b)))` has the lightness of
/// `rgb_to_hsl(r, g, b)`.
#[verifier::spinoff_prover]
#[verifier::rlimit(40)]
pub proof fn law_hsl_lightness_stable(r: int, g: int, b: int)
    requires
        0 <= r <= 255,
        0 <= g <= 255,
        0 <= b <= 255,
    ensures
        hsl_of3(rgb_of_hsl3(hsl_of(r, g, b))).2 == hsl_of(r, g, b).2,
{
    lemma_kernel_ranges(r, g, b);
    let (h, s, l) = hsl_of(r, g, b);
    let a = if 2 * l >= 100 { 200 - 2 * l } else { 2 * l };
    let cc = a * s;
    let x = hue_offset(h);
    assert(0 <= cc <= 100 * a && 0 <= cc * x <= 60 * cc) by (nonlinear_arith)
        requires
            cc == a * s,
            0 <= x <= 60,
            0 <= s <= 100,
            a >= 0,
    ;
    let m = 6000 * l - 30 * cc;
    lemma_parts_extremes(h, 60 * cc, cc * x, m);
    let p = 255 * (60 * cc + m);
    let q = 255 * m;
    let r1 = round_ratio(p, 600000);
    let r2 = round_ratio(q, 600000);
    vstd::arithmetic::div_mod::lemma_fundamental_div_mod(2 * p + 600000, 1200000);
    vstd::arithmetic::div_mod::lemma_mod_bound(2 * p + 600000, 1200000);
    vstd::arithmetic::div_mod::lemma_fundamental_div_mod(2 * q + 600000, 1200000);
    vstd::arithmetic::div_mod::lemma_mod_bound(2 * q + 600000, 1200000);
    assert(p + q == 3060000 * l);
    assert((200 * (r1 + r2) + 510) / 1020 == l);
}

/// One hop through RGB keeps the black of a CMYK colour read from bytes:
/// `rgb_to_cmyk(cmyk_to_rgb(rgb_to_cmyk(r, g, b)))` has the black of
/// `rgb_to_cmyk(r, g, b)`.
#[verifier::spinoff_prover]
#[verifier::rlimit(40)]
pub proof fn law_cmyk_black_stable(r: int, g: int, b: int)
    requires
        0 <= r <= 255,
        0 <= g <= 255,
        0 <= b <= 255,
    ensures
        cmyk_of3(
            rgb_of_cmyk(
                cmyk_of(r, g, b).0,
                cmyk_of(r, g, b).1,
                cmyk_of(r, g, b).2,
                cmyk_of(r, g, b).3,
            ),
        ).3 == cmyk_of(r, g, b).3,
{
    lemma_kernel_ranges(r, g, b);
    let (c, m, y, k) = cmyk_of(r, g, b);
    let mx = max3(r, g, b);
    let w = 100 - k;
    assert forall|i: int| 0 <= i <= 100 implies #[trigger] ink_channel(i, k) <= ink_channel(0, k) by {
        assert(255 * (100 - i) * w <= 255 * 100 * w) by (nonlinear_arith)
            requires
                0 <= i <= 100,
                0 <= w,
        ;
        lemma_round_ratio_mono(255 * (100 - i) * w, 255 * 100 * w, 10000);
    }
    if mx > 0 {
        vstd::arithmetic::div_mod::lemma_basic_div(mx, 2 * mx);
        assert(round_ratio(0, mx) == 0);
        assert(100 * (mx - mx) == 0);
        assert(c == 0 || m == 0 || y == 0);
    }
    let top = ink_channel(0, k);
    assert(max3(ink_channel(c, k), ink_channel(m, k), ink_channel(y, k)) == top);
    lemma_round_ratio_scale(255 * w, 100, 100);
    assert(255 * (100 - 0) * w == 100 * (255 * w)) by (nonlinear_arith);
    assert(top == round_ratio(255 * w, 100));
    lemma_percent_byte_percent(k);
    lemma_round_ratio_bound(255 * w, 100, 255);
    if top == 0 {
        vstd::arithmetic::div_mod::lemma_fundamental_div_mod(510 * w + 100, 200);
        vstd::arithmetic::div_mod::lemma_mod_bound(510 * w + 100, 200);
    }
}

} // verus!
