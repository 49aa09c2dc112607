use voidgrid::palette::{parse_hex, ColorEntry, Palette, PaletteColor, PaletteConfig};
use voidgrid::types::Color;

#[test]
fn parse_hex_six_digits() {
    assert_eq!(parse_hex("#FF8000"), Ok((255, 128, 0, 255)));
    assert_eq!(parse_hex("ff8000"), Ok((255, 128, 0, 255)));
}

#[test]
fn parse_hex_eight_digits() {
    assert_eq!(parse_hex("#00ff0080"), Ok((0, 255, 0, 128)));
}

#[test]
fn parse_hex_plus_sign_is_accepted_as_in_from_str_radix() {
    assert_eq!(parse_hex("+F+F+F"), Ok((15, 15, 15, 255)));
}

#[test]
fn parse_hex_bad_length() {
    assert_eq!(parse_hex("#FFF"), Err("invalid hex color length: 3".to_string()));
    assert_eq!(parse_hex(""), Err("invalid hex color length: 0".to_string()));
}

#[test]
fn parse_hex_bad_digit() {
    assert_eq!(parse_hex("#GG0000"), Err("invalid digit found in string".to_string()));
}

#[test]
fn to_hex_omits_opaque_alpha() {
    assert_eq!(PaletteColor::new(255, 0, 16, 255).to_hex(), "#FF0010");
    assert_eq!(PaletteColor::new(255, 0, 16, 128).to_hex(), "#FF001080");
}

#[test]
fn hex_round_trip() {
    let c = PaletteColor::new(0x12, 0xAB, 0x3C, 0x7F);
    let (r, g, b, a) = parse_hex(&c.to_hex()).unwrap();
    assert_eq!((r, g, b, a), (0x12, 0xAB, 0x3C, 0x7F));
}

#[test]
fn palette_add_and_lookup() {
    let mut p = Palette::new("test");
    assert!(p.is_empty());
    assert_eq!(p.add_color(PaletteColor::named("red", 255, 0, 0, 255)), 0);
    assert_eq!(p.add_color(PaletteColor::new(0, 255, 0, 255)), 1);
    assert_eq!(p.len(), 2);
    assert_eq!(p.get(0), Some(Color::new(255, 0, 0, 255)));
    assert_eq!(p.get(2), None);
    assert_eq!(p.get_by_name("red"), Some(Color::new(255, 0, 0, 255)));
    assert_eq!(p.get_by_name("blue"), None);
    assert_eq!(p.index_of_name("red"), Some(0));
    assert_eq!(p.find_by_rgba(0, 255, 0, 255), Some(1));
    assert_eq!(p.find_by_rgba(1, 2, 3, 4), None);
}

#[test]
fn palette_set_color_renames() {
    let mut p = Palette::new("p");
    p.add_color(PaletteColor::named("old", 1, 1, 1, 255));
    p.set_color(0, PaletteColor::named("new", 2, 2, 2, 255));
    assert_eq!(p.index_of_name("old"), None);
    assert_eq!(p.index_of_name("new"), Some(0));
    assert_eq!(p.get(0), Some(Color::new(2, 2, 2, 255)));
    // out of range: nothing happens
    p.set_color(5, PaletteColor::named("x", 3, 3, 3, 255));
    assert_eq!(p.len(), 1);
    assert_eq!(p.index_of_name("x"), None);
}

#[test]
fn palette_cycle_rotates_right() {
    let mut p = Palette::new("c");
    p.add_color(PaletteColor::named("a", 1, 0, 0, 255));
    p.add_color(PaletteColor::named("b", 2, 0, 0, 255));
    p.add_color(PaletteColor::named("c", 3, 0, 0, 255));
    p.add_color(PaletteColor::named("d", 4, 0, 0, 255));
    p.cycle(1, 4);
    let reds: Vec<u8> = p.colors.iter().map(|c| c.r).collect();
    assert_eq!(reds, vec![1, 4, 2, 3]);
    assert_eq!(p.index_of_name("d"), Some(1));
    assert_eq!(p.index_of_name("b"), Some(2));
    // empty or bad ranges change nothing
    p.cycle(2, 2);
    p.cycle(0, 9);
    let reds: Vec<u8> = p.colors.iter().map(|c| c.r).collect();
    assert_eq!(reds, vec![1, 4, 2, 3]);
}

#[test]
fn palette_to_toml_text() {
    let mut p = Palette::new("test");
    p.add_color(PaletteColor::named("red", 255, 0, 0, 255));
    p.add_color(PaletteColor::new(0, 255, 0, 128));
    assert_eq!(
        p.to_toml(),
        "name = \"test\"\n\ncolors = [\n    { hex = \"#FF0000\", name = \"red\" },\n    \"#00FF0080\",\n]\n"
    );
}

#[test]
fn palette_from_config() {
    let config = PaletteConfig {
        name: "cfg".to_string(),
        colors: vec![
            ColorEntry::Short("#102030".to_string()),
            ColorEntry::Named { hex: "#40506070".to_string(), name: Some("dim".to_string()) },
        ],
    };
    let p = Palette::from_config(config).unwrap();
    assert_eq!(p.name, "cfg");
    assert_eq!(p.get(0), Some(Color::new(0x10, 0x20, 0x30, 255)));
    assert_eq!(p.get_by_name("dim"), Some(Color::new(0x40, 0x50, 0x60, 0x70)));
}

#[test]
fn palette_from_config_reports_first_bad_entry() {
    let config = PaletteConfig {
        name: "bad".to_string(),
        colors: vec![ColorEntry::Short("#1020".to_string()), ColorEntry::Short("#ZZ0000".to_string())],
    };
    match Palette::from_config(config) {
        Err(e) => assert_eq!(e, "invalid hex color length: 4"),
        Ok(_) => panic!("expected an error"),
    }
}
