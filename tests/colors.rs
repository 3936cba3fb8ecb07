use aco_palette::{AcoError, ColorSpace, HexColor, RawColorV1, RawColorV2};

fn swatch(cs: ColorSpace, c: [u16; 4]) -> RawColorV2 {
    RawColorV2 {
        name: String::from("Swatch"),
        color_space: cs,
        component_1: c[0],
        component_2: c[1],
        component_3: c[2],
        component_4: c[3],
    }
}

#[test]
fn color_space_codes_round_trip() {
    let all = [
        (ColorSpace::RGB, 0u16),
        (ColorSpace::HSB, 1),
        (ColorSpace::CMYK, 2),
        (ColorSpace::PANTONE, 3),
        (ColorSpace::FOCOLTONE, 4),
        (ColorSpace::TRUMATCH, 5),
        (ColorSpace::TOYO, 6),
        (ColorSpace::LAB, 7),
        (ColorSpace::GRAYSCALE, 8),
        (ColorSpace::HKS, 10),
    ];
    for (cs, code) in all {
        assert_eq!(cs.as_u16(), code);
        assert_eq!(ColorSpace::from_u16(code), Some(cs));
    }
}

#[test]
fn unassigned_codes_have_no_color_space() {
    assert_eq!(ColorSpace::from_u16(9), None);
    assert_eq!(ColorSpace::from_u16(11), None);
    assert_eq!(ColorSpace::from_u16(0xFFFF), None);
}

#[test]
fn rgb_hex_and_web_color() {
    let c = swatch(ColorSpace::RGB, [0x1234, 0xABCD, 0x5678, 0x9999]);
    assert_eq!(c.to_hex(), Ok(String::from("1234ABCD5678")));
    assert_eq!(c.to_8bit_rgb(), "12AB56");
}

#[test]
fn hsb_hex_and_web_color() {
    let c = swatch(ColorSpace::HSB, [0x1234, 0xABCD, 0x5678, 0]);
    assert_eq!(c.to_hex(), Ok(String::from("1234ABCD5678")));
    assert_eq!(c.to_8bit_hsb(), "12AB56");
}

#[test]
fn grayscale_hex() {
    let c = swatch(ColorSpace::GRAYSCALE, [0x00FF, 0x1111, 0x2222, 0x3333]);
    assert_eq!(c.to_hex(), Ok(String::from("00FF")));
}

#[test]
fn cmyk_hex() {
    let c = swatch(ColorSpace::CMYK, [0x1111, 0x2222, 0x3333, 0x4444]);
    assert_eq!(c.to_hex(), Ok(String::from("1111222233334444")));
}

#[test]
fn hex_digits_are_zero_padded_uppercase() {
    let c = swatch(ColorSpace::RGB, [0x000A, 0x00BC, 0x0DEF, 0]);
    assert_eq!(c.to_hex(), Ok(String::from("000A00BC0DEF")));
    assert_eq!(c.to_8bit_rgb(), "00000D");
}

#[test]
fn spaces_without_rule_are_unsupported() {
    for cs in [
        ColorSpace::PANTONE,
        ColorSpace::FOCOLTONE,
        ColorSpace::TRUMATCH,
        ColorSpace::TOYO,
        ColorSpace::LAB,
        ColorSpace::HKS,
    ] {
        let c = swatch(cs, [1, 2, 3, 4]);
        assert_eq!(c.to_hex(), Err(AcoError::UnsupportedColorSpace));
        assert_eq!(c.to_hex_color().err(), Some(AcoError::UnsupportedColorSpace));
    }
}

#[test]
fn legacy_swatch_hex() {
    let c = RawColorV1 {
        color_space: ColorSpace::CMYK,
        component_1: 0xFFFF,
        component_2: 0x0000,
        component_3: 0x8000,
        component_4: 0x0001,
    };
    assert_eq!(c.to_hex(), Ok(String::from("FFFF000080000001")));
    let lab = RawColorV1 { color_space: ColorSpace::LAB, ..c };
    assert_eq!(lab.to_hex(), Err(AcoError::UnsupportedColorSpace));
}

#[test]
fn hex_color_keeps_name_and_space() {
    let c = swatch(ColorSpace::GRAYSCALE, [0xABCD, 0, 0, 0]);
    let h = c.to_hex_color().unwrap();
    assert_eq!(h.name, "Swatch");
    assert_eq!(h.color_space, ColorSpace::GRAYSCALE);
    assert_eq!(h.color_hex, "ABCD");
}

#[test]
fn web_color_takes_leading_byte_of_each_channel() {
    let rgb = HexColor {
        name: String::from("x"),
        color_space: ColorSpace::RGB,
        color_hex: String::from("1234ABCD5678"),
    };
    assert_eq!(rgb.web_color(), "12AB56");
    let cmyk = HexColor {
        name: String::from("x"),
        color_space: ColorSpace::CMYK,
        color_hex: String::from("1111222233334444"),
    };
    assert_eq!(cmyk.web_color(), "11223344");
    let gray = HexColor {
        name: String::from("x"),
        color_space: ColorSpace::GRAYSCALE,
        color_hex: String::from("00FF"),
    };
    assert_eq!(gray.web_color(), "00");
}
