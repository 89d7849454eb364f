use dndgamerolls::color::{argb_hex, clean_color_name, color_input_kind, parse_hex_argb, ColorInputKind};
use dndgamerolls::dice::DiceType;
use dndgamerolls::settings::{
    ensure_roll_fx_mapping, roll_fx_for, DiceRollFxKind, DiceRollFxMapping, DiceTypeSetting,
};

// The float channels of a color setting are computed in the application
// (floats stay out of the library); these tests check the library's exact
// byte channels and hex text, and the expected values of the float tests
// are read back as channel / 255.

#[test]
fn test_color_setting_parse_hex_rgb() {
    let (a, r, g, b) = parse_hex_argb("#FF8844").unwrap();
    assert_eq!((a, r, g, b), (0xFF, 0xFF, 0x88, 0x44));
    assert!((r as f32 / 255.0 - 1.0).abs() < 0.01);
    assert!((g as f32 / 255.0 - 0.533).abs() < 0.01);
    assert!((b as f32 / 255.0 - 0.267).abs() < 0.01);
    assert!((a as f32 / 255.0 - 1.0).abs() < 0.01);
}

#[test]
fn test_color_setting_parse_hex_argb() {
    let (a, r, _, _) = parse_hex_argb("#80FF8844").unwrap();
    assert_eq!((a, r), (0x80, 0xFF));
    assert!((a as f32 / 255.0 - 0.502).abs() < 0.01);
    assert!((r as f32 / 255.0 - 1.0).abs() < 0.01);
}

#[test]
fn test_color_setting_to_hex() {
    // Channels 1.0, 1.0, 0.5, 0.0 are the bytes 255, 255, 127, 0.
    assert_eq!(argb_hex(255, 255, 127, 0), "#FFFF7F00");
}

#[test]
fn test_color_setting_parse_named_color_css() {
    assert_eq!(color_input_kind("rebeccapurple"), ColorInputKind::Named);
    let c = csscolorparser::Color::from_html(clean_color_name("rebeccapurple").as_str()).unwrap();
    assert!((c.a - 1.0).abs() < 0.01);
    // RebeccaPurple is #663399
    assert!((c.r - (0x66 as f32 / 255.0)).abs() < 0.02);
    assert!((c.g - (0x33 as f32 / 255.0)).abs() < 0.02);
    assert!((c.b - (0x99 as f32 / 255.0)).abs() < 0.02);
}

#[test]
fn test_color_setting_parse_named_color_with_spaces() {
    assert_eq!(color_input_kind("Light Gray"), ColorInputKind::Named);
    let c = csscolorparser::Color::from_html(clean_color_name("Light Gray").as_str()).unwrap();
    assert!((c.a - 1.0).abs() < 0.01);
    // Just sanity-check it's a light-ish gray.
    assert!(c.r > 0.6 && c.g > 0.6 && c.b > 0.6);
}

#[test]
fn test_color_setting_hex_to_color() {
    assert_eq!(parse_hex_argb("#80FF8844"), Some((0x80, 0xFF, 0x88, 0x44)));
}

#[test]
fn test_color_setting_color_to_hex() {
    assert_eq!(argb_hex(0x80, 0xFF, 0x88, 0x44), "#80FF8844");
}

#[test]
fn color_hex_edge_cases() {
    assert_eq!(parse_hex_argb("##ff8844"), Some((255, 255, 0x88, 0x44)));
    assert_eq!(parse_hex_argb("#+F+F+F"), Some((255, 15, 15, 15)));
    assert_eq!(parse_hex_argb("#FF884"), None);
    assert_eq!(parse_hex_argb("#GG8844"), None);
    assert_eq!(parse_hex_argb("#-1FF00"), None);
    assert_eq!(parse_hex_argb("#éé8844"), None);
    assert_eq!(parse_hex_argb("#"), None);
}

#[test]
fn color_hex_round_trip() {
    for (a, r, g, b) in [(0u8, 0u8, 0u8, 0u8), (255, 1, 128, 200), (0x80, 0xFF, 0x88, 0x44)] {
        let text = argb_hex(a, r, g, b);
        assert_eq!(text.len(), 9);
        assert_eq!(parse_hex_argb(&text), Some((a, r, g, b)));
    }
    assert_eq!(argb_hex(10, 171, 205, 239), "#0AABCDEF");
}

#[test]
fn color_names_and_kinds() {
    assert_eq!(clean_color_name("  Light_Gray-Blue  "), "lightgrayblue");
    assert_eq!(clean_color_name("CORN flower\tBLUE"), "cornflowerblue");
    assert_eq!(color_input_kind("  #fff  "), ColorInputKind::Hex);
    assert_eq!(color_input_kind("A:1 R:0.5"), ColorInputKind::Labeled);
    assert_eq!(color_input_kind("1,0.5,0.2"), ColorInputKind::Csv);
    assert_eq!(color_input_kind("red,green"), ColorInputKind::Csv);
    assert_eq!(color_input_kind("   "), ColorInputKind::Unrecognized);
}

#[test]
fn settings_fx_mapping() {
    let mut m = DiceRollFxMapping::new(DiceType::D6);
    assert_eq!(m.effects_by_value.len(), 7);
    assert_eq!(m.get(6), DiceRollFxKind::NoEffect);
    m.set(6, DiceRollFxKind::Fire);
    assert_eq!(m.get(6), DiceRollFxKind::Fire);
    m.set(0, DiceRollFxKind::Plasma);
    assert_eq!(m.get(0), DiceRollFxKind::NoEffect);
    m.set(9, DiceRollFxKind::Explosion);
    assert_eq!(m.effects_by_value.len(), 10);
    assert_eq!(m.get(9), DiceRollFxKind::Explosion);
    assert_eq!(m.get(8), DiceRollFxKind::NoEffect);
    assert_eq!(m.get(100), DiceRollFxKind::NoEffect);
    m.normalize_len();
    assert_eq!(m.effects_by_value.len(), 7);
    assert_eq!(m.get(6), DiceRollFxKind::Fire);
    assert_eq!(m.get(9), DiceRollFxKind::NoEffect);
    assert_eq!(DiceRollFxKind::Electricity.label(), "Electricity");
    assert_eq!(DiceRollFxKind::default().label(), "None");
}

#[test]
fn settings_roll_fx_lookup() {
    let mut mappings: Vec<DiceRollFxMapping> = Vec::new();
    assert_eq!(roll_fx_for(&mappings, DiceType::D20, 20), DiceRollFxKind::NoEffect);
    let i = ensure_roll_fx_mapping(&mut mappings, DiceType::D20);
    assert_eq!(i, 0);
    mappings[i].set(20, DiceRollFxKind::Fireworks);
    assert_eq!(roll_fx_for(&mappings, DiceType::D20, 20), DiceRollFxKind::Fireworks);
    assert_eq!(roll_fx_for(&mappings, DiceType::D20, 0), DiceRollFxKind::NoEffect);
    assert_eq!(roll_fx_for(&mappings, DiceType::D6, 6), DiceRollFxKind::NoEffect);
    // A second mapping for the same die is never consulted.
    let mut extra = DiceRollFxMapping::new(DiceType::D20);
    extra.set(20, DiceRollFxKind::Plasma);
    mappings.push(extra);
    assert_eq!(roll_fx_for(&mappings, DiceType::D20, 20), DiceRollFxKind::Fireworks);
    // Ensuring an existing mapping fits it to its die and keeps its effects.
    mappings[0].set(25, DiceRollFxKind::Fire);
    assert_eq!(ensure_roll_fx_mapping(&mut mappings, DiceType::D20), 0);
    assert_eq!(mappings[0].effects_by_value.len(), 21);
    assert_eq!(mappings[0].get(20), DiceRollFxKind::Fireworks);
    assert_eq!(ensure_roll_fx_mapping(&mut mappings, DiceType::D4), 2);
}

#[test]
fn settings_die_choice() {
    assert_eq!(DiceTypeSetting::default(), DiceTypeSetting::D20);
    assert_eq!(DiceTypeSetting::D12.to_dice_type(), DiceType::D12);
    assert_eq!(DiceTypeSetting::D10.label(), "d10");
    assert_eq!(DiceTypeSetting::D4.to_dice_type().max_value(), 4);
}
