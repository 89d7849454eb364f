use dndgamerolls::character::CharacterData;
use dndgamerolls::command::{
    cli_dice_config, format_skill_name, history_labels, parse_command, quick_roll, rerun_history_command,
    submit_command, CliRequest, CommandHistory, CommandInput, QuickRollType,
};
use dndgamerolls::dice::DiceType;
use dndgamerolls::keyed::KeyedMap;
use dndgamerolls::sheet::{CharacterSheet, SavingThrow, Skill};

fn check_command_history_add() {
    let mut history = CommandHistory::default();
    assert!(history.commands.is_empty());

    history.add_command("--dice 2d6".to_string());
    assert_eq!(history.commands.len(), 1);
    assert_eq!(history.commands[0], "--dice 2d6");

    // Adding same command should not duplicate
    history.add_command("--dice 2d6".to_string());
    assert_eq!(history.commands.len(), 1);

    // Adding different command should add
    history.add_command("--dice 1d20".to_string());
    assert_eq!(history.commands.len(), 2);

    // Empty command should not be added
    history.add_command("".to_string());
    history.add_command("   ".to_string());
    assert_eq!(history.commands.len(), 2);
}

fn check_command_input_default() {
    let input = CommandInput::default();
    assert!(input.text.is_empty());
    assert!(!input.active);
}

#[test]
fn types_test_command_history_add() {
    check_command_history_add();
}

#[test]
fn ui_test_command_history_add() {
    check_command_history_add();
}

#[test]
fn types_test_command_input_default() {
    check_command_input_default();
}

#[test]
fn ui_test_command_input_default() {
    check_command_input_default();
}

fn character_with_stealth(stealth: i32, dex: i32) -> CharacterData {
    let mut sheet = CharacterSheet::default();
    let mut skills = KeyedMap::new();
    skills.insert(
        "s1".to_string(),
        Skill {
            id: "s1".to_string(),
            name: "stealth".to_string(),
            slug: "stealth".to_string(),
            proficient: true,
            modifier: stealth,
            expertise: None,
            proficiency_type: None,
        },
    );
    sheet.skills = skills;
    let mut saves = KeyedMap::new();
    saves.insert(
        "v1".to_string(),
        SavingThrow {
            id: "v1".to_string(),
            name: "dexterity".to_string(),
            slug: "dexterity".to_string(),
            proficient: false,
            modifier: 7,
        },
    );
    sheet.saving_throws = saves;
    sheet.modifiers.dexterity = dex;
    let mut data = CharacterData::default();
    data.sheet = Some(sheet);
    data
}

#[test]
fn command_dice_and_modifiers() {
    let none = CharacterData::default();
    let c = parse_command("--dice 2d6 --modifier 3", &none).unwrap();
    assert_eq!(c.dice_to_roll, vec![DiceType::D6, DiceType::D6]);
    assert_eq!(c.modifier, 3);
    assert_eq!(c.modifier_name, "");

    let c = parse_command("d8 1d4 -m 5 -m -2 -d 2d12", &none).unwrap();
    assert_eq!(
        c.dice_to_roll,
        vec![DiceType::D8, DiceType::D4, DiceType::D12, DiceType::D12]
    );
    assert_eq!(c.modifier, 3);

    // No dice named: one D20; bad notation and bad numbers are ignored.
    let c = parse_command("hello -m x --dice 9d9 --modifier", &none).unwrap();
    assert_eq!(c.dice_to_roll, vec![DiceType::D20]);
    assert_eq!(c.modifier, 0);

    assert!(parse_command("", &none).is_none());
    assert!(parse_command(" \t ", &none).is_none());
}

#[test]
fn command_checkon_uses_the_character() {
    let data = character_with_stealth(6, 2);
    let c = parse_command("d20 --checkon Stealth -m 1", &data).unwrap();
    assert_eq!(c.modifier, 7);
    assert_eq!(c.modifier_name, "Stealth");

    let c = parse_command("--checkon DEX", &data).unwrap();
    assert_eq!(c.modifier, 2);
    assert_eq!(c.modifier_name, "DEX check");

    // An unknown check on a loaded character counts as an ability without a
    // modifier.
    let c = parse_command("--checkon luck", &data).unwrap();
    assert_eq!(c.modifier, 0);
    assert_eq!(c.modifier_name, "luck check");

    // Without a character the name is kept and nothing is added.
    let c = parse_command("--checkon stealth -m 2", &CharacterData::default()).unwrap();
    assert_eq!(c.modifier, 2);
    assert_eq!(c.modifier_name, "stealth");
}

#[test]
fn command_submit_and_rerun() {
    let data = CharacterData::default();
    let mut history = CommandHistory::default();
    assert!(submit_command(&mut history, "   ", &data).is_none());
    assert!(history.commands.is_empty());
    let c = submit_command(&mut history, "  2d6 -m 1  ", &data).unwrap();
    assert_eq!(c.modifier, 1);
    assert_eq!(history.commands, vec!["2d6 -m 1".to_string()]);
    submit_command(&mut history, "2d6 -m 1", &data).unwrap();
    assert_eq!(history.commands.len(), 1);

    let again = rerun_history_command(&mut history, 0, &data).unwrap();
    assert_eq!(again.dice_to_roll, vec![DiceType::D6, DiceType::D6]);
    assert_eq!(history.selected_index, Some(0));
    assert!(rerun_history_command(&mut history, 5, &data).is_none());
    assert_eq!(history.selected_index, Some(0));
}

#[test]
fn command_history_labels_newest_first() {
    let mut history = CommandHistory::default();
    for i in 0..35 {
        history.add_command(format!("d{}", i));
    }
    let labels = history_labels(&history);
    assert_eq!(labels.len(), 30);
    assert_eq!(labels[0], (34, "35: d34".to_string()));
    assert_eq!(labels[29], (5, "6: d5".to_string()));
}

#[test]
fn command_skill_names_are_spaced() {
    assert_eq!(format_skill_name("sleightOfHand"), "Sleight Of Hand");
    assert_eq!(format_skill_name("animalHandling"), "Animal Handling");
    assert_eq!(format_skill_name("stealth"), "Stealth");
    assert_eq!(format_skill_name(""), "");
}

#[test]
fn command_quick_rolls() {
    let data = character_with_stealth(6, -1);
    let mut history = CommandHistory::default();

    let c = quick_roll(&mut history, &QuickRollType::Skill("stealth".to_string()), &data, DiceType::D20);
    assert_eq!(c.dice_to_roll, vec![DiceType::D20]);
    assert_eq!(c.modifier, 6);
    assert_eq!(c.modifier_name, "Stealth");

    let c = quick_roll(&mut history, &QuickRollType::AbilityCheck("dex".to_string()), &data, DiceType::D12);
    assert_eq!(c.modifier, -1);
    assert_eq!(c.modifier_name, "Dex check");

    let c = quick_roll(&mut history, &QuickRollType::SavingThrow("dexterity".to_string()), &data, DiceType::D20);
    assert_eq!(c.modifier, 7);
    assert_eq!(c.modifier_name, "Dexterity save");

    assert_eq!(
        history.commands,
        vec![
            "1d20 --checkon Stealth (+6)".to_string(),
            "1d12 --checkon Dex check (-1)".to_string(),
            "1d20 --checkon Dexterity save (+7)".to_string(),
        ]
    );

    let none = CharacterData::default();
    let c = quick_roll(&mut history, &QuickRollType::Skill("arcana".to_string()), &none, DiceType::D4);
    assert_eq!(c.modifier, 0);
    assert_eq!(history.commands.last().unwrap(), "1d4 --checkon Arcana (+0)");
}

fn request(modifier: i32) -> CliRequest {
    CliRequest { dice: None, checkon: None, skill: None, ability: None, save: None, modifier }
}

#[test]
fn command_line_rolls() {
    let data = character_with_stealth(6, 2);

    let mut r = request(1);
    r.dice = Some(vec![(2, DiceType::D6), (1, DiceType::D8)]);
    let roll = cli_dice_config(&r, &data);
    assert_eq!(roll.config.dice_to_roll, vec![DiceType::D6, DiceType::D6, DiceType::D8]);
    assert_eq!(roll.config.modifier, 1);
    assert!(roll.warning.is_none());

    let mut r = request(0);
    r.checkon = Some("Stealth".to_string());
    let roll = cli_dice_config(&r, &data);
    assert_eq!(roll.config.dice_to_roll, vec![DiceType::D20]);
    assert_eq!(roll.config.modifier, 6);
    assert_eq!(roll.config.modifier_name, "Stealth");

    let mut r = request(0);
    r.skill = Some("stealth".to_string());
    r.dice = Some(vec![(3, DiceType::D4)]);
    let roll = cli_dice_config(&r, &data);
    assert_eq!(roll.config.dice_to_roll, vec![DiceType::D20]);
    assert_eq!(roll.config.modifier_name, "stealth skill");

    let mut r = request(0);
    r.skill = Some("flying".to_string());
    let roll = cli_dice_config(&r, &data);
    assert_eq!(roll.config.modifier, 0);
    assert_eq!(roll.config.modifier_name, "flying");
    assert_eq!(
        roll.warning,
        Some("Warning: Skill 'flying' not found in character sheet".to_string())
    );

    let mut r = request(-1);
    r.ability = Some("dex".to_string());
    let roll = cli_dice_config(&r, &data);
    assert_eq!(roll.config.modifier, 1);
    assert_eq!(roll.config.modifier_name, "dex check");

    let mut r = request(0);
    r.save = Some("dexterity".to_string());
    let roll = cli_dice_config(&r, &data);
    assert_eq!(roll.config.modifier, 7);
    assert_eq!(roll.config.modifier_name, "dexterity save");

    let none = CharacterData::default();
    let mut r = request(2);
    r.checkon = Some("wisdom save".to_string());
    let roll = cli_dice_config(&r, &none);
    assert_eq!(roll.config.modifier, 2);
    assert_eq!(roll.config.modifier_name, "wisdom save");
    assert_eq!(
        roll.warning,
        Some("Warning: 'wisdom save' not found in character sheet".to_string())
    );

    let roll = cli_dice_config(&request(0), &none);
    assert_eq!(roll.config.dice_to_roll, vec![DiceType::D20]);
    assert_eq!(roll.config.modifier_name, "");
}
