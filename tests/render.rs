use aco_palette::render::render;
use aco_palette::{AcoError, ColorSpace, RawColorV2};

fn swatch(name: &str, cs: ColorSpace, c: [u16; 4]) -> RawColorV2 {
    RawColorV2 {
        name: String::from(name),
        color_space: cs,
        component_1: c[0],
        component_2: c[1],
        component_3: c[2],
        component_4: c[3],
    }
}

#[test]
fn empty_palette_renders_empty_sheets() {
    let sheets = render(&Vec::new()).unwrap();
    assert_eq!(sheets.flat, "");
    assert_eq!(sheets.variables, "");
    assert_eq!(sheets.custom_properties, ":root {\n\n}");
}

#[test]
fn renders_each_swatch_in_order() {
    let records = vec![
        swatch("Pure Red", ColorSpace::RGB, [0xFFFF, 0x0000, 0x0000, 0]),
        swatch("Mid Gray", ColorSpace::GRAYSCALE, [0x8080, 0, 0, 0]),
    ];
    let sheets = render(&records).unwrap();
    assert_eq!(
        sheets.flat,
        ".pure_red {\n    background: #FF0000;\n}\n.mid_gray {\n    background: #80;\n}\n"
    );
    assert_eq!(sheets.variables, "$pure_red:    #FF0000;\n$mid_gray:    #80;\n");
    assert_eq!(
        sheets.custom_properties,
        ":root {\n    --pure-red:    #FF0000;\n    --mid-gray:    #80;\n\n}"
    );
}

#[test]
fn one_unsupported_swatch_fails_the_palette() {
    let records = vec![
        swatch("Red", ColorSpace::RGB, [0xFFFF, 0, 0, 0]),
        swatch("Toyo", ColorSpace::TOYO, [1, 2, 3, 4]),
    ];
    assert_eq!(render(&records).err(), Some(AcoError::UnsupportedColorSpace));
}

#[test]
fn cmyk_renders_four_channels() {
    let records = vec![swatch("Ink", ColorSpace::CMYK, [0x1111, 0x2222, 0x3333, 0x4444])];
    let sheets = render(&records).unwrap();
    assert_eq!(sheets.variables, "$ink:    #11223344;\n");
}
