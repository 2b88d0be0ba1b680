use easy_color::common::{
    calc_rgb_with_alpha, cmyk_to_rgb, hsl_to_rgb, hsv_to_rgb, process_hex, rgb_to_cmyk,
    rgb_to_hsl, rgb_to_hsv, ALPHA_HUNDREDTH, ALPHA_ONE,
};
use easy_color::{ColorError, Hex, CMYK, HSL, HSLA, HSV, RGB, RGBA};

fn is_format_err<T>(r: Result<T, ColorError>) -> bool {
    matches!(r, Err(ColorError::FormatErr(_)))
}

fn is_value_err<T>(r: Result<T, ColorError>) -> bool {
    matches!(r, Err(ColorError::ValueErr(_)))
}

#[test]
fn hex_chain_end_to_end() {
    let hex = Hex::parse("#2bc48a").unwrap();
    let rgb = hex.to_rgb();
    assert_eq!(rgb.to_string(), "rgb(43,196,138)");
    assert_eq!(rgb.to_hsl().to_string(), "hsl(157,64%,47%)");
    assert_eq!(rgb.to_hsv().to_string(), "hsv(157,78%,77%)");
    assert_eq!(rgb.to_cmyk().to_string(), "cmyk(78,0,30,23)");
}

#[test]
fn rgba_to_hex_and_flattened_rgb() {
    let rgba = RGBA::from_tuple((43, 196, 138, 85 * ALPHA_HUNDREDTH)).unwrap();
    assert_eq!(rgba.to_hex().to_string(), "#2BC48AD8");
    assert_eq!(rgba.to_rgb().to_string(), "rgb(74,204,155)");
}

#[test]
fn mix_white_with_black() {
    let white = RGBA::from_tuple((255, 255, 255, ALPHA_ONE)).unwrap();
    let black = HSL::from_tuple((0, 0, 0)).unwrap();
    assert_eq!(white.mix(black.to_rgba(), None).to_string(), "rgba(127,127,127,1.00)");
    assert_eq!(
        white.mix(black.to_rgba(), Some(35 * ALPHA_HUNDREDTH)).to_string(),
        "rgba(165,165,165,1.00)"
    );
    assert_eq!(black.mix(white, None).to_string(), "hsl(0,0%,50%)");
}

#[test]
fn mix_with_opposed_alphas() {
    let clear = RGBA::from_tuple((0, 0, 0, 0)).unwrap();
    let solid = RGBA::from_tuple((200, 100, 50, ALPHA_ONE)).unwrap();
    // weight zero with full opposition falls back to plain interpolation
    let m = clear.mix(solid, Some(0));
    assert_eq!(m.to_string(), "rgba(0,0,0,0.00)");
    let m = clear.mix(solid, Some(ALPHA_ONE));
    assert_eq!(m.to_string(), "rgba(200,100,50,1.00)");
}

#[test]
fn fade_and_opaquer() {
    let mut rgba = RGBA::from_tuple((255, 255, 255, 80 * ALPHA_HUNDREDTH)).unwrap();
    rgba.fade(50 * ALPHA_HUNDREDTH as i32);
    assert_eq!(rgba.to_string(), "rgba(255,255,255,0.40)");
    let mut rgba = RGBA::from_tuple((255, 255, 255, 80 * ALPHA_HUNDREDTH)).unwrap();
    rgba.opaquer(20 * ALPHA_HUNDREDTH as i32);
    assert_eq!(rgba.to_string(), "rgba(255,255,255,0.96)");
    rgba.opaquer(ALPHA_ONE as i32);
    assert_eq!(rgba.alpha(), ALPHA_ONE);
    rgba.fade(2 * ALPHA_ONE as i32);
    assert_eq!(rgba.alpha(), 0);
}

#[test]
fn grayscale_and_negate() {
    let rgba = RGBA::from_tuple((95, 45, 155, 80 * ALPHA_HUNDREDTH)).unwrap();
    assert_eq!(rgba.grayscale().to_string(), "rgba(72,72,72,0.80)");
    assert_eq!(rgba.negate().to_string(), "rgba(160,210,100,0.80)");
    let rgb = RGB::new(95, 45, 155);
    assert_eq!(rgb.negate().to_string(), "rgb(160,210,100)");
    assert_eq!(rgb.grayscale().to_string(), "rgb(72,72,72)");
}

#[test]
fn range_enforcement() {
    assert!(is_value_err(RGBA::from_tuple((0, 0, 0, ALPHA_ONE + ALPHA_ONE / 2))));
    assert!(is_value_err(RGBA::parse("rgba(0,0,0,1.5)")));
    assert!(is_value_err(HSL::from_tuple((361, 0, 0))));
    assert!(is_value_err(HSL::parse("hsl(361,0%,0%)")));
    assert!(is_format_err(RGB::parse("rgb(1,2)")));
    assert!(is_value_err(HSV::from_tuple((0, 101, 0))));
    assert!(is_value_err(CMYK::from_tuple((0, 0, 0, 101))));
    assert!(is_value_err(CMYK::parse("cmyk(0,0,0,200)")));
    assert!(is_format_err(CMYK::parse("cmyk(0,0,0,256)")));
    assert!(is_value_err(HSLA::parse("hsla(10,10%,10%,-0.5)")));
    assert!(is_value_err(HSLA::from_tuple((10, 10, 10, ALPHA_ONE + 1))));
}

#[test]
fn black_to_cmyk() {
    let black = RGB::new(0, 0, 0);
    assert_eq!(black.to_cmyk().to_string(), "cmyk(0,0,0,100)");
    assert_eq!(rgb_to_cmyk(0, 0, 0), (0, 0, 0, 100));
}

#[test]
fn format_errors() {
    assert!(is_format_err(RGB::parse("rgb(1,2,3")));
    assert!(is_format_err(RGB::parse("rgb(1,2,x)")));
    assert!(is_format_err(RGB::parse("rgb(1,2,256)")));
    assert!(is_format_err(RGB::parse("rgba(1,2,3)")));
    assert!(is_format_err(RGBA::parse("rgba(1,2,3)")));
    assert!(is_format_err(RGBA::parse("rgba(1,2,3,x)")));
    assert!(is_format_err(HSL::parse("hsl(1,2)")));
    assert!(is_format_err(HSV::parse("hsv(a,2,3)")));
    assert!(is_format_err(Hex::parse("#12")));
    assert!(is_format_err(Hex::parse("#12345G")));
    assert!(is_format_err(Hex::parse("123456")));
    assert!(is_format_err(HSLA::parse("hsla(1,2%,3%)")));
}

#[test]
fn parse_is_lenient_about_case_and_space() {
    let rgb = RGB::parse("  RGB( 43 , 196,138 )  ").unwrap();
    assert_eq!(rgb.to_string(), "rgb(43,196,138)");
    let hsl = HSL::parse("HSL(157, 64, 47%)").unwrap();
    assert_eq!(hsl.to_string(), "hsl(157,64%,47%)");
    let hex = Hex::parse(" #FaC ").unwrap();
    assert_eq!(hex.to_string(), "#FFAACC");
    let rgba = RGBA::parse("rgba(255,125,55, .5)").unwrap();
    assert_eq!(rgba.to_string(), "rgba(255,125,55,0.50)");
    let rgba = RGBA::parse("rgba(255,125,55,1)").unwrap();
    assert_eq!(rgba.alpha(), ALPHA_ONE);
}

#[test]
fn hex_alpha_forms() {
    let rgba = RGBA::parse("rgba(255,125,55, 0.85)").unwrap();
    let hex = rgba.to_hex();
    assert_eq!(hex.to_hex_alpha(), "#FF7D37D8");
    assert_eq!(hex.to_string(), "#FF7D37D8");
    assert_eq!(hex.to_alpha_hex(), "#D8FF7D37");
    let rgba = RGBA::parse("rgba(255,125,55, 1)").unwrap();
    let hex = rgba.to_hex();
    assert_eq!(hex.to_hex_alpha(), "#FF7D37FF");
    assert_eq!(hex.to_string(), "#FF7D37");
    let hex = Hex::parse("#FFDFAC").unwrap();
    let mut rgba = hex.to_rgba();
    assert_eq!(rgba.to_string(), "rgba(255,223,172,1.00)");
    rgba.set_alpha(ALPHA_ONE / 2);
    assert_eq!(rgba.to_hex().to_hex_alpha(), "#FFDFAC7F");
    assert_eq!(rgba.to_hex().to_alpha_hex(), "#7FFFDFAC");
}

#[test]
fn text_round_trips() {
    for s in ["rgb(0,0,0)", "rgb(255,128,7)"] {
        assert_eq!(RGB::parse(s).unwrap().to_string(), s);
    }
    for s in ["hsl(360,100%,0%)", "hsl(0,0%,100%)"] {
        assert_eq!(HSL::parse(s).unwrap().to_string(), s);
    }
    assert_eq!(HSV::parse("hsv(262,85%,79%)").unwrap().to_string(), "hsv(262,85%,79%)");
    assert_eq!(CMYK::parse("cmyk(77,34,53,38)").unwrap().to_string(), "cmyk(77,34,53,38)");
    assert_eq!(RGBA::parse("rgba(1,2,3,0.07)").unwrap().to_string(), "rgba(1,2,3,0.07)");
    assert_eq!(HSLA::parse("hsla(262,85%,79%,0.70)").unwrap().to_string(), "hsla(262,85%,79%,0.70)");
    for s in ["#2BC48A", "#FF99CCD9", "#00000000"] {
        assert_eq!(Hex::parse(s).unwrap().to_string(), s);
    }
}

#[test]
fn kernel_values() {
    assert_eq!(rgb_to_hsl(43, 196, 138), (157, 64, 47));
    assert_eq!(rgb_to_hsv(43, 196, 138), (157, 78, 77));
    assert_eq!(rgb_to_hsl(255, 0, 0), (0, 100, 50));
    assert_eq!(rgb_to_hsv(0, 0, 255), (240, 100, 100));
    // a hue just below 360 rounds up to 360
    assert_eq!(rgb_to_hsv(255, 0, 1).0, 360);
    assert_eq!(hsl_to_rgb(0, 100, 50), (255, 0, 0));
    assert_eq!(hsl_to_rgb(360, 100, 50), (255, 0, 0));
    assert_eq!(hsl_to_rgb(120, 100, 50), (0, 255, 0));
    assert_eq!(hsl_to_rgb(125, 60, 75), (153, 230, 159));
    assert_eq!(hsv_to_rgb(240, 100, 100), (0, 0, 255));
    assert_eq!(hsv_to_rgb(125, 60, 75), (77, 191, 86));
    assert_eq!(cmyk_to_rgb(100, 34, 53, 38), (0, 104, 74));
    assert_eq!(cmyk_to_rgb(0, 0, 0, 0), (255, 255, 255));
    assert_eq!(calc_rgb_with_alpha(43, 85 * ALPHA_HUNDREDTH), 74);
    assert_eq!(calc_rgb_with_alpha(0, 0), 255);
    assert_eq!(calc_rgb_with_alpha(10, ALPHA_ONE), 10);
}

#[test]
fn process_hex_chunks() {
    assert_eq!(process_hex("fac", 1), vec![0xff, 0xaa, 0xcc]);
    assert_eq!(process_hex("FFDFAC", 2), vec![0xff, 0xdf, 0xac]);
    assert_eq!(process_hex("ffzz00", 2), vec![0xff, 0x00]);
    assert_eq!(process_hex("abc", 2), vec![0xab, 0xcc]);
    assert_eq!(process_hex("", 2), Vec::<u8>::new());
}

#[test]
fn accessors_clamp() {
    let mut hsl = HSL::from_tuple((262, 85, 79)).unwrap();
    hsl.set_hue(400);
    hsl.set_saturation(120);
    hsl.set_lightness(50);
    assert_eq!(hsl.to_string(), "hsl(360,100%,50%)");
    let mut hsv = HSV::from_tuple((262, 85, 79)).unwrap();
    hsv.set_value(500);
    assert_eq!((hsv.hue(), hsv.saturation(), hsv.value()), (262, 85, 100));
    let mut cmyk = CMYK::parse("cmyk(77,34,53,38)").unwrap();
    cmyk.set_cyan(200);
    cmyk.set_black(10);
    assert_eq!(cmyk.to_string(), "cmyk(100,34,53,10)");
    assert_eq!((cmyk.cyan(), cmyk.magenta(), cmyk.yellow(), cmyk.black()), (100, 34, 53, 10));
    let mut rgba = RGBA::from_tuple((1, 2, 3, 0)).unwrap();
    rgba.set_alpha(ALPHA_ONE * 3);
    rgba.set_green(200);
    assert_eq!(rgba.to_string(), "rgba(1,200,3,1.00)");
    let mut hsla = HSLA::from_tuple((10, 20, 30, ALPHA_ONE)).unwrap();
    hsla.set_hue(361);
    hsla.set_alpha(ALPHA_ONE / 2);
    assert_eq!(hsla.to_string(), "hsla(360,20%,30%,0.50)");
}

#[test]
fn darkness() {
    assert!(RGB::new(0, 0, 0).is_dark());
    assert!(RGB::new(255, 255, 255).is_light());
    // luma 0.299 * 200 + 0.587 * 200 + 0.114 * 150 = 194.3
    assert!(RGB::new(200, 200, 150).is_light());
    assert!(HSL::from_tuple((0, 0, 10)).unwrap().is_dark());
    let faint = RGBA::from_tuple((0, 0, 0, 10 * ALPHA_HUNDREDTH)).unwrap();
    assert!(faint.is_light());
}

#[test]
fn conversions_between_alpha_types() {
    let hsla = HSLA::from_tuple((125, 60, 75, 60 * ALPHA_HUNDREDTH)).unwrap();
    assert_eq!(hsla.to_rgba().to_string(), "rgba(153,230,159,0.60)");
    let rgba = RGBA::from_tuple((125, 60, 240, ALPHA_ONE / 2)).unwrap();
    assert_eq!(rgba.to_hsl().to_string(), "hsl(262,85%,79%)");
    let hsl = HSL::from_tuple((0, 0, 0)).unwrap();
    assert_eq!(hsl.to_hsla().to_string(), "hsla(0,0%,0%,1.00)");
    let cmyk = CMYK::from_tuple((100, 34, 53, 38)).unwrap();
    assert_eq!(cmyk.to_hex().to_string(), "#00684A");
}

#[test]
fn random_colours_are_valid() {
    for _ in 0..20 {
        let rgba = RGBA::random();
        assert!(rgba.alpha() <= ALPHA_ONE && rgba.alpha() % ALPHA_HUNDREDTH == 0);
        let hsla = HSLA::random();
        assert!(hsla.hue() <= 360 && hsla.saturation() <= 100 && hsla.lightness() <= 100);
        let hsl = HSL::random();
        assert!(HSL::parse(&hsl.to_string()).is_ok());
        let _ = RGB::random();
    }
}

#[test]
fn one_hop_keeps_value_lightness_and_black() {
    for (r, g, b) in [(43u8, 196u8, 138u8), (0, 3, 6), (255, 0, 1), (1, 0, 0), (200, 200, 200)] {
        let (h, s, v) = rgb_to_hsv(r, g, b);
        let (r2, g2, b2) = hsv_to_rgb(h, s, v);
        assert_eq!(rgb_to_hsv(r2, g2, b2).2, v);
        let (h, s, l) = rgb_to_hsl(r, g, b);
        let (r2, g2, b2) = hsl_to_rgb(h, s, l);
        assert_eq!(rgb_to_hsl(r2, g2, b2).2, l);
        let (c, m, y, k) = rgb_to_cmyk(r, g, b);
        let (r2, g2, b2) = cmyk_to_rgb(c, m, y, k);
        assert_eq!(rgb_to_cmyk(r2, g2, b2).3, k);
    }
    // the whole triple is a fixed point for this colour
    let x = rgb_to_hsv(43, 196, 138);
    let (r2, g2, b2) = hsv_to_rgb(x.0, x.1, x.2);
    assert_eq!(rgb_to_hsv(r2, g2, b2), x);
}

#[test]
fn format_error_names_type_and_input() {
    match RGB::parse("rgb(1,2)") {
        Err(ColorError::FormatErr(m)) => assert_eq!(m, "RGB: 'rgb(1,2)' format error!"),
        other => panic!("unexpected {:?}", other),
    }
    match Hex::parse("#1") {
        Err(ColorError::FormatErr(m)) => assert_eq!(m, "Hex: '#1' format error!"),
        other => panic!("unexpected {:?}", other),
    }
    match HSL::from_tuple((361, 0, 0)) {
        Err(ColorError::ValueErr(m)) => assert!(m.starts_with("HSL: args (361,0,0) value error")),
        other => panic!("unexpected {:?}", other),
    }
}
