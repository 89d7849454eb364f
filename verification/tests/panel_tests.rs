use dndgamerolls::command::QuickRollType;
use dndgamerolls::keyed::KeyedMap;
use dndgamerolls::character::CharacterData;
use dndgamerolls::dice::DiceConfig;
use dndgamerolls::panel::{character_line, modifier_line, quick_roll_buttons, text_less};
use dndgamerolls::settings::{eq_ignore_ascii_case, remember_theme_seed};
use dndgamerolls::sheet::{CharacterSheet, SavingThrow, Skill};

fn skill(modifier: i32) -> Skill {
    Skill {
        id: String::new(),
        name: String::new(),
        slug: String::new(),
        proficient: false,
        modifier,
        expertise: None,
        proficiency_type: None,
    }
}

#[test]
fn panel_buttons_in_order() {
    let mut sheet = CharacterSheet::default();
    sheet.modifiers.strength = 2;
    sheet.modifiers.dexterity = -1;
    let mut saves = KeyedMap::new();
    saves.insert(
        "wisdom".to_string(),
        SavingThrow { id: "wisdom".to_string(), name: "Wisdom".to_string(), slug: "wisdom".to_string(), proficient: true, modifier: 4 },
    );
    saves.insert(
        "strength".to_string(),
        SavingThrow { id: "strength".to_string(), name: "Strength".to_string(), slug: "strength".to_string(), proficient: false, modifier: 0 },
    );
    sheet.saving_throws = saves;
    let mut skills = KeyedMap::new();
    skills.insert("stealth".to_string(), skill(5));
    skills.insert("sleightOfHand".to_string(), skill(-2));
    skills.insert("arcana".to_string(), skill(1));
    sheet.skills = skills;

    let buttons = quick_roll_buttons(&sheet);
    let labels: Vec<&str> = buttons.iter().map(|(l, _)| l.as_str()).collect();
    assert_eq!(
        labels,
        vec![
            "STR (+2) ", "DEX (-1) ", "CON (+0) ", "INT (+0) ", "WIS (+0) ", "CHA (+0) ",
            "STR (+0) ", "WIS (+4) ",
            "Arcana (+1) ", "Sleight Of Hand (-2) ", "Stealth (+5) ",
        ]
    );
    assert!(matches!(&buttons[0].1, QuickRollType::AbilityCheck(n) if n == "strength"));
    assert!(matches!(&buttons[7].1, QuickRollType::SavingThrow(n) if n == "wisdom"));
    assert!(matches!(&buttons[9].1, QuickRollType::Skill(n) if n == "sleightOfHand"));
}

#[test]
fn panel_text_order_is_string_order() {
    assert!(text_less("Zeta", "alpha"));
    assert!(text_less("abc", "abd"));
    assert!(text_less("ab", "abc"));
    assert!(!text_less("abc", "abc"));
    assert!(!text_less("b", "a"));
}

#[test]
fn settings_recent_theme_seed_goes_first() {
    let mut recent = vec!["#FF112233".to_string(), "#ff445566".to_string(), "#FF778899".to_string()];
    remember_theme_seed(&mut recent, "#FF445566".to_string());
    assert_eq!(recent, vec!["#FF445566", "#FF112233", "#FF778899"]);
}

#[test]
fn settings_recent_theme_seeds_keep_ten() {
    let mut recent: Vec<String> = (0..10).map(|i| format!("#FF0000{:02}", i)).collect();
    remember_theme_seed(&mut recent, "#FFABCDEF".to_string());
    assert_eq!(recent.len(), 10);
    assert_eq!(recent[0], "#FFABCDEF");
    assert_eq!(recent[9], "#FF000008");
    assert!(eq_ignore_ascii_case("#ffabcdef", "#FFABCDEF"));
    assert!(!eq_ignore_ascii_case("#ffabcdee", "#FFABCDEF"));
}

#[test]
fn panel_character_line() {
    let mut data = CharacterData::default();
    assert_eq!(character_line(&data), "No character loaded");
    let mut sheet = CharacterSheet::default();
    sheet.character.name = "Mira".to_string();
    sheet.character.race = "Elf".to_string();
    sheet.character.class = "Wizard".to_string();
    sheet.character.level = 3;
    data.sheet = Some(sheet);
    assert_eq!(character_line(&data), "Mira - Elf Wizard (Level 3)");
}

#[test]
fn panel_modifier_line() {
    let named = DiceConfig { dice_to_roll: vec![], modifier: 5, modifier_name: "stealth".to_string() };
    assert_eq!(modifier_line(&named), "\nModifier: stealth (+5)");
    let unnamed = DiceConfig { dice_to_roll: vec![], modifier: -2, modifier_name: String::new() };
    assert_eq!(modifier_line(&unnamed), "\nModifier: -2");
    let none = DiceConfig { dice_to_roll: vec![], modifier: 0, modifier_name: String::new() };
    assert_eq!(modifier_line(&none), "");
}
