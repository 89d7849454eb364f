use dndgamerolls::character::CharacterData;
use dndgamerolls::command::{CliRequest, CommandHistory, QuickRollType};
use dndgamerolls::dice::DiceType;
use dndgamerolls::fits::{
    cli_request_fits_exec, command_fits_exec, try_parse_command, try_quick_roll, try_submit_command,
};
use dndgamerolls::keyed::KeyedMap;
use dndgamerolls::sheet::{CharacterSheet, CustomIntField, Skill};

fn data_with_stealth(modifier: i32) -> CharacterData {
    let mut sheet = CharacterSheet::default();
    let mut skills = KeyedMap::new();
    skills.insert(
        "stealth".to_string(),
        Skill {
            id: "stealth".to_string(),
            name: "Stealth".to_string(),
            slug: "stealth".to_string(),
            proficient: true,
            modifier,
            expertise: None,
            proficiency_type: None,
        },
    );
    sheet.skills = skills;
    let mut data = CharacterData::default();
    data.sheet = Some(sheet);
    data
}

fn request(checkon: Option<&str>, skill: Option<&str>, modifier: i32) -> CliRequest {
    CliRequest {
        dice: None,
        checkon: checkon.map(|s| s.to_string()),
        skill: skill.map(|s| s.to_string()),
        ability: None,
        save: None,
        modifier,
    }
}

#[test]
fn fits_command_checks() {
    let data = data_with_stealth(5);
    assert!(command_fits_exec("1d20 --checkon stealth -m 3", &data));
    assert!(!command_fits_exec("-m 2147483647 -m 1", &data));
    let big = data_with_stealth(i32::MAX);
    assert!(!command_fits_exec("-m 1 --checkon Stealth", &big));
    assert!(command_fits_exec("-m 1 --checkon perception", &big));
}

#[test]
fn fits_try_parse_command() {
    let data = data_with_stealth(5);
    let c = try_parse_command("2d6 --checkon stealth -m 1", &data).unwrap();
    assert_eq!(c.dice_to_roll, vec![DiceType::D6, DiceType::D6]);
    assert_eq!(c.modifier, 6);
    assert!(try_parse_command("-m 2147483647 -m 1", &data).is_none());
    assert!(try_parse_command("   ", &data).is_none());
    let mut history = CommandHistory::default();
    assert!(try_submit_command(&mut history, "-m 2147483647 -m 1", &data).is_none());
    assert!(history.commands.is_empty());
    assert!(try_submit_command(&mut history, " d20 ", &data).is_some());
    assert_eq!(history.commands, vec!["d20".to_string()]);
}

#[test]
fn fits_cli_request() {
    let data = data_with_stealth(i32::MAX);
    assert!(!cli_request_fits_exec(&request(None, Some("stealth"), 1), &data));
    assert!(cli_request_fits_exec(&request(None, Some("stealth"), 0), &data));
    assert!(cli_request_fits_exec(&request(Some("perception"), None, 1), &data));
    assert!(cli_request_fits_exec(&request(None, Some("stealth"), 1), &CharacterData::default()));
}

#[test]
fn fits_try_quick_roll() {
    let mut sheet = CharacterSheet::default();
    let mut attrs = KeyedMap::new();
    attrs.insert("x".to_string(), CustomIntField { id: "x".to_string(), name: "Odd".to_string(), value: i32::MIN });
    sheet.custom_attributes = attrs;
    let mut data = CharacterData::default();
    data.sheet = Some(sheet);
    let mut history = CommandHistory::default();
    assert!(try_quick_roll(&mut history, &QuickRollType::AbilityCheck("odd".to_string()), &data, DiceType::D20).is_none());
    assert!(history.commands.is_empty());
    let c = try_quick_roll(&mut history, &QuickRollType::AbilityCheck("dexterity".to_string()), &data, DiceType::D20).unwrap();
    assert_eq!(c.modifier_name, "Dexterity check");
    assert!(try_quick_roll(&mut history, &QuickRollType::SavingThrow(String::new()), &data, DiceType::D20).is_none());
}
