use easy_color::{Hex, CMYK, HSL, HSLA, HSV, RGB, RGBA};

#[test]
fn it_works() {
    // hex
    let _hex: Hex = Hex::parse("#FA0").unwrap();
    let _hex: Hex = Hex::parse("#F7A3B8").unwrap();
    let _hex: Hex = Hex::parse("#FF99CCD9").unwrap();
    let hex: Hex = Hex::parse("#2bc48a").unwrap();

    let rgb: RGB = hex.to_rgb();
    assert_eq!(rgb.to_string(), "rgb(43,196,138)");

    let rgba: RGBA = hex.to_rgba();
    assert_eq!(rgba.to_string(), "rgba(43,196,138,1.00)");

    let hsl: HSL = hex.to_hsl();
    assert_eq!(hsl.to_string(), "hsl(157,64%,47%)");

    let hsla: HSLA = hex.to_hsla();
    assert_eq!(hsla.to_string(), "hsla(157,64%,47%,1.00)");

    let hsv: HSV = hex.to_hsv();
    assert_eq!(hsv.to_string(), "hsv(157,78%,77%)");

    let cmyk: CMYK = hex.to_cmyk();
    assert_eq!(cmyk.to_string(), "cmyk(78,0,30,23)");

    // rgb
    let rgb: RGB = RGB::parse("rgb(43,196,138)").unwrap();
    let hex: Hex = rgb.to_hex();
    assert_eq!(hex.to_string(), "#2BC48A");

    let rgba: RGBA = rgb.to_rgba();
    assert_eq!(rgba.to_string(), "rgba(43,196,138,1.00)");

    let hsl: HSL = rgb.to_hsl();
    assert_eq!(hsl.to_string(), "hsl(157,64%,47%)");

    let hsla: HSLA = rgb.to_hsla();
    assert_eq!(hsla.to_string(), "hsla(157,64%,47%,1.00)");

    let hsv: HSV = rgb.to_hsv();
    assert_eq!(hsv.to_string(), "hsv(157,78%,77%)");

    let cmyk: CMYK = rgb.to_cmyk();
    assert_eq!(cmyk.to_string(), "cmyk(78,0,30,23)");

    //rgba
    let rgba: RGBA = RGBA::parse("rgba(43,196,138,0.85)").unwrap();
    let hex: Hex = rgba.to_hex();
    assert_eq!(hex.to_string(), "#2BC48AD8");

    let rgb: RGB = rgba.to_rgb();
    assert_eq!(rgb.to_string(), "rgb(74,204,155)");

    let hsl: HSL = rgba.to_hsl();
    assert_eq!(hsl.to_string(), "hsl(157,56%,55%)");

    let hsla: HSLA = rgba.to_hsla();
    assert_eq!(hsla.to_string(), "hsla(157,64%,47%,0.85)");

    let hsv: HSV = rgba.to_hsv();
    assert_eq!(hsv.to_string(), "hsv(157,64%,80%)");

    let cmyk: CMYK = rgba.to_cmyk();
    assert_eq!(cmyk.to_string(), "cmyk(64,0,24,20)");
}
