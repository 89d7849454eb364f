use dndgamerolls::dice::{parse_dice_arg, parse_dice_str, DiceConfig, DiceResults, DiceType};

fn check_max_values() {
    assert_eq!(DiceType::D4.max_value(), 4);
    assert_eq!(DiceType::D6.max_value(), 6);
    assert_eq!(DiceType::D8.max_value(), 8);
    assert_eq!(DiceType::D10.max_value(), 10);
    assert_eq!(DiceType::D12.max_value(), 12);
    assert_eq!(DiceType::D20.max_value(), 20);
}

fn check_names() {
    assert_eq!(DiceType::D4.name(), "D4");
    assert_eq!(DiceType::D6.name(), "D6");
    assert_eq!(DiceType::D20.name(), "D20");
}

fn check_parse() {
    assert_eq!(DiceType::parse("d4"), Some(DiceType::D4));
    assert_eq!(DiceType::parse("D4"), Some(DiceType::D4));
    assert_eq!(DiceType::parse("d20"), Some(DiceType::D20));
    assert_eq!(DiceType::parse("D20"), Some(DiceType::D20));
    assert_eq!(DiceType::parse("invalid"), None);
    assert_eq!(DiceType::parse("d100"), None);
}

fn check_config_default() {
    let config = DiceConfig::default();
    assert_eq!(config.dice_to_roll, vec![DiceType::D20]);
    assert_eq!(config.modifier, 0);
    assert!(config.modifier_name.is_empty());
}

fn check_results_default() {
    let results = DiceResults::default();
    assert!(results.results.is_empty());
}

#[test]
fn types_test_dice_type_max_value() {
    check_max_values();
}

#[test]
fn dice_test_dice_type_max_value() {
    check_max_values();
}

#[test]
fn types_test_dice_type_name() {
    check_names();
}

#[test]
fn dice_test_dice_type_name() {
    check_names();
}

#[test]
fn types_test_dice_type_parse() {
    check_parse();
}

#[test]
fn dice_test_dice_type_parse() {
    check_parse();
}

#[test]
fn types_test_dice_config_default() {
    check_config_default();
}

#[test]
fn dice_test_dice_config_default() {
    check_config_default();
}

#[test]
fn types_test_dice_results_default() {
    check_results_default();
}

#[test]
fn dice_test_dice_results_default() {
    check_results_default();
}

fn density(d: DiceType) -> f32 {
    d.density_tenths() as f32 / 10.0
}

fn scale(d: DiceType) -> f32 {
    d.scale_hundredths() as f32 / 100.0
}

#[test]
fn test_dice_type_density() {
    // D4 should be lightest, D20 heaviest
    assert!(density(DiceType::D4) < density(DiceType::D6));
    assert!(density(DiceType::D6) < density(DiceType::D8));
    assert!(density(DiceType::D8) < density(DiceType::D10));
    assert!(density(DiceType::D10) < density(DiceType::D12));
    assert!(density(DiceType::D12) < density(DiceType::D20));

    // Check specific values
    assert_eq!(density(DiceType::D4), 1.0);
    assert_eq!(density(DiceType::D20), 3.0);
}

#[test]
fn test_dice_type_scale() {
    // D4 should be smallest, D20 largest
    assert!(scale(DiceType::D4) <= scale(DiceType::D6));
    assert!(scale(DiceType::D6) <= scale(DiceType::D10));
    assert!(scale(DiceType::D10) <= scale(DiceType::D12));
    assert!(scale(DiceType::D12) <= scale(DiceType::D20));

    // D6 is the baseline
    assert_eq!(scale(DiceType::D6), 1.0);
}

#[test]
fn dice_values_match_the_literals_of_the_physics() {
    assert_eq!(density(DiceType::D6), 1.5);
    assert_eq!(density(DiceType::D8), 1.8);
    assert_eq!(density(DiceType::D12), 2.5);
    assert_eq!(scale(DiceType::D4), 0.9);
    assert_eq!(scale(DiceType::D10), 1.05);
    assert_eq!(scale(DiceType::D12), 1.1);
    assert_eq!(scale(DiceType::D20), 1.2);
}

#[test]
fn dice_all_and_faces() {
    let all = DiceType::all();
    assert_eq!(
        all,
        vec![DiceType::D4, DiceType::D6, DiceType::D8, DiceType::D10, DiceType::D12, DiceType::D20]
    );
    for d in all {
        assert_eq!(d.face_count(), d.max_value());
        assert_eq!(DiceType::parse(&d.name().to_lowercase()), Some(d));
    }
    assert_eq!(DiceType::D6.display_name(), "D6 (Cube)");
    assert_eq!(DiceType::D20.display_name(), "D20 (Icosahedron)");
}

#[test]
fn dice_notation_parsing() {
    assert_eq!(parse_dice_str("2d6"), Some((2, DiceType::D6)));
    assert_eq!(parse_dice_str("d20"), Some((1, DiceType::D20)));
    assert_eq!(parse_dice_str("3D8"), Some((3, DiceType::D8)));
    assert_eq!(parse_dice_str("+4d4"), Some((4, DiceType::D4)));
    assert_eq!(parse_dice_str("0d12"), Some((0, DiceType::D12)));
    assert_eq!(parse_dice_str("2x6"), None);
    assert_eq!(parse_dice_str("-1d6"), None);
    assert_eq!(parse_dice_str("2d7"), None);
}

#[test]
fn dice_argument_errors() {
    assert_eq!(parse_dice_arg("2d6"), Ok((2, DiceType::D6)));
    assert_eq!(
        parse_dice_arg("20"),
        Err("Invalid dice format: 20. Use format like '2d6' or 'd20'".to_string())
    );
    assert_eq!(parse_dice_arg("xd6"), Err("Invalid count: x".to_string()));
    assert_eq!(
        parse_dice_arg("2d7"),
        Err("Unknown die type: d7. Valid: d4, d6, d8, d10, d12, d20".to_string())
    );
}
