use aco_palette::decode::parse_aco;
use aco_palette::render::render;
use aco_palette::{AcoError, ColorSpace, RawColorV2};

fn push_u16(out: &mut Vec<u8>, v: u16) {
    out.extend_from_slice(&v.to_be_bytes());
}

fn push_record(out: &mut Vec<u8>, code: u16, c: [u16; 4], name: &str) {
    push_u16(out, code);
    for v in c {
        push_u16(out, v);
    }
    out.extend_from_slice(&(name.len() as u32).to_be_bytes());
    for b in name.bytes() {
        out.push(0);
        out.push(b);
    }
}

fn palette(legacy: &[[u8; 10]], records: &[(u16, [u16; 4], &str)]) -> Vec<u8> {
    let mut out = Vec::new();
    push_u16(&mut out, 1);
    push_u16(&mut out, legacy.len() as u16);
    for r in legacy {
        out.extend_from_slice(r);
    }
    push_u16(&mut out, 2);
    push_u16(&mut out, records.len() as u16);
    for (code, c, name) in records {
        push_record(&mut out, *code, *c, name);
    }
    out
}

fn fields(r: &RawColorV2) -> (ColorSpace, [u16; 4], String) {
    (
        r.color_space,
        [r.component_1, r.component_2, r.component_3, r.component_4],
        r.name.clone(),
    )
}

#[test]
fn decodes_every_record_in_file_order() {
    let bytes = palette(
        &[[7; 10], [9; 10]],
        &[
            (0, [0xFFFF, 0, 0, 0], "Pure Red"),
            (2, [1, 2, 3, 4], "Ink"),
            (8, [0x00FF, 0, 0, 0], "Gray"),
        ],
    );
    let rs = parse_aco(&bytes).unwrap();
    assert_eq!(rs.len(), 3);
    assert_eq!(fields(&rs[0]), (ColorSpace::RGB, [0xFFFF, 0, 0, 0], String::from("Pure Red")));
    assert_eq!(fields(&rs[1]), (ColorSpace::CMYK, [1, 2, 3, 4], String::from("Ink")));
    assert_eq!(fields(&rs[2]), (ColorSpace::GRAYSCALE, [0x00FF, 0, 0, 0], String::from("Gray")));
}

#[test]
fn legacy_records_do_not_affect_output() {
    let records = [(1, [10, 20, 30, 40], "Sky")];
    let a = parse_aco(&palette(&[[0; 10]], &records)).unwrap();
    let b = parse_aco(&palette(&[[0xFF; 10]], &records)).unwrap();
    let c = parse_aco(&palette(&[], &records)).unwrap();
    assert_eq!(fields(&a[0]), fields(&b[0]));
    assert_eq!(fields(&a[0]), fields(&c[0]));
    assert_eq!(a.len(), 1);
}

#[test]
fn round_trip_reproduces_records() {
    let records = [
        (0u16, [0x1234u16, 0xABCD, 0x5678, 0], "Pure Red"),
        (1, [1, 2, 3, 4], "h"),
        (2, [0x1111, 0x2222, 0x3333, 0x4444], "Cyan Ink"),
        (7, [5, 6, 7, 8], "Lab Color"),
        (8, [0x00FF, 0, 0, 0], ""),
        (10, [0xFFFF, 0xFFFF, 0xFFFF, 0xFFFF], "hks 13"),
    ];
    let rs = parse_aco(&palette(&[[3; 10]], &records)).unwrap();
    assert_eq!(rs.len(), records.len());
    for (r, (code, c, name)) in rs.iter().zip(records.iter()) {
        assert_eq!(r.color_space.as_u16(), *code);
        assert_eq!([r.component_1, r.component_2, r.component_3, r.component_4], *c);
        assert_eq!(r.name, *name);
    }
}

#[test]
fn unassigned_color_space_code_fails() {
    let bytes = palette(&[], &[(0, [0; 4], "ok"), (9, [0; 4], "gap")]);
    assert_eq!(parse_aco(&bytes).err(), Some(AcoError::UnknownColorSpace));
}

#[test]
fn lab_decodes_then_fails_to_render() {
    let bytes = palette(&[], &[(0, [1, 2, 3, 0], "fine"), (7, [1, 2, 3, 0], "Lab")]);
    let rs = parse_aco(&bytes).unwrap();
    assert_eq!(rs[1].color_space, ColorSpace::LAB);
    assert_eq!(render(&rs).err(), Some(AcoError::UnsupportedColorSpace));
    let pantone = parse_aco(&palette(&[], &[(3, [0; 4], "P")])).unwrap();
    assert_eq!(render(&pantone).err(), Some(AcoError::UnsupportedColorSpace));
}

#[test]
fn truncated_final_name_fails() {
    let mut bytes = palette(&[[1; 10]], &[(0, [1, 2, 3, 0], "One"), (0, [4, 5, 6, 0], "Two")]);
    bytes.pop();
    assert_eq!(parse_aco(&bytes).err(), Some(AcoError::TruncatedInput));
}

#[test]
fn truncation_anywhere_fails() {
    let bytes = palette(&[[1; 10]], &[(2, [1, 2, 3, 4], "Name")]);
    assert!(parse_aco(&bytes).is_ok());
    for n in 0..bytes.len() {
        assert_eq!(parse_aco(&bytes[..n]).err(), Some(AcoError::TruncatedInput), "cut at {}", n);
    }
}

#[test]
fn empty_input_is_truncated() {
    assert_eq!(parse_aco(&[]).err(), Some(AcoError::TruncatedInput));
}

#[test]
fn wrong_first_version_tag_fails() {
    let mut bytes = palette(&[], &[]);
    bytes[1] = 2;
    assert_eq!(parse_aco(&bytes).err(), Some(AcoError::UnsupportedVersion));
}

#[test]
fn wrong_second_version_tag_fails() {
    let mut bytes = palette(&[[0; 10]], &[]);
    bytes[15] = 3;
    assert_eq!(parse_aco(&bytes).err(), Some(AcoError::UnsupportedVersion));
}

#[test]
fn nul_bytes_are_stripped_from_names() {
    let mut bytes = palette(&[], &[]);
    bytes[7] = 1;
    push_u16(&mut bytes, 0);
    for _ in 0..4 {
        push_u16(&mut bytes, 0);
    }
    bytes.extend_from_slice(&3u32.to_be_bytes());
    bytes.extend_from_slice(&[0, b'A', 0, b'B', 0, 0]);
    let rs = parse_aco(&bytes).unwrap();
    assert_eq!(rs[0].name, "AB");
}

#[test]
fn invalid_utf8_name_fails() {
    let mut bytes = palette(&[], &[]);
    bytes[7] = 1;
    push_u16(&mut bytes, 0);
    for _ in 0..4 {
        push_u16(&mut bytes, 0);
    }
    bytes.extend_from_slice(&1u32.to_be_bytes());
    bytes.extend_from_slice(&[0, 0xFF]);
    assert_eq!(parse_aco(&bytes).err(), Some(AcoError::InvalidTextEncoding));
}

#[test]
fn empty_palette_decodes_to_nothing() {
    let rs = parse_aco(&palette(&[[5; 10]], &[])).unwrap();
    assert!(rs.is_empty());
}
