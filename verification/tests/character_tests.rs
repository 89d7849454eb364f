use dndgamerolls::character::{make_slug, CharacterData};
use dndgamerolls::keyed::KeyedMap;
use dndgamerolls::sheet::{Attributes, CharacterSheet, CustomIntField, CustomStringField, Skill};

fn check_character_data_default() {
    let data = CharacterData::default();
    assert!(data.sheet.is_none());
    assert!(data.get_skill_modifier("stealth").is_none());
    assert!(data.get_ability_modifier("dex").is_none());
    assert!(data.get_saving_throw_modifier("dex").is_none());
}

#[test]
fn types_test_character_data_default() {
    check_character_data_default();
}

#[test]
fn character_test_character_data_default() {
    check_character_data_default();
}

#[test]
fn test_calculate_modifier() {
    assert_eq!(Attributes::calculate_modifier(10), 0);
    assert_eq!(Attributes::calculate_modifier(20), 5);
    assert_eq!(Attributes::calculate_modifier(8), -1);
    assert_eq!(Attributes::calculate_modifier(15), 2);
}

#[test]
fn character_modifier_rounds_down() {
    assert_eq!(Attributes::calculate_modifier(9), -1);
    assert_eq!(Attributes::calculate_modifier(7), -2);
    assert_eq!(Attributes::calculate_modifier(3), -4);
    assert_eq!(Attributes::calculate_modifier(1), -5);
    assert_eq!(Attributes::calculate_modifier(11), 0);
}

#[test]
fn character_scores_in_order() {
    let a = Attributes { strength: 1, dexterity: 2, constitution: 3, intelligence: 4, wisdom: 5, charisma: 6 };
    let v = a.as_vec();
    assert_eq!(v[0], ("Strength", 1));
    assert_eq!(v[5], ("Charisma", 6));
}

#[test]
fn character_slugs() {
    assert_eq!(make_slug("Sleight of Hand"), "sleightofhand");
    assert_eq!(make_slug("Animal-Handling!"), "animalhandling");
    assert_eq!(make_slug("ÉLAN 2"), "élan2");
}

fn skill(id: &str, name: &str, slug: &str, modifier: i32, proficient: bool) -> Skill {
    Skill {
        id: id.to_string(),
        name: name.to_string(),
        slug: slug.to_string(),
        proficient,
        modifier,
        expertise: None,
        proficiency_type: None,
    }
}

#[test]
fn character_new_sheet_is_rolled_and_keyed() {
    let data = CharacterData::create_new();
    assert!(data.character_id.is_none());
    assert!(data.is_modified);
    let sheet = data.sheet.as_ref().unwrap();
    for (_, score) in sheet.attributes.as_vec() {
        assert!((1..=20).contains(&score));
    }
    assert_eq!(sheet.skills.len(), 18);
    assert_eq!(sheet.saving_throws.len(), 6);
    for (key, sk) in &sheet.skills.entries {
        assert_eq!(key.len(), 36);
        assert_eq!(&sk.id, key);
        assert_eq!(sk.modifier, 0);
    }
    let dex = Attributes::calculate_modifier(sheet.attributes.dexterity);
    assert_eq!(data.get_ability_modifier("DEX"), Some(dex));
    assert_eq!(data.get_saving_throw_modifier("dexterity"), Some(dex));
    assert_eq!(data.get_skill_modifier("stealth"), Some(0));
    assert_eq!(data.get_skill_modifier("Sleight of Hand"), Some(0));
    assert_eq!(data.get_skill_modifier("flying"), None);
}

#[test]
fn character_skill_lookup_prefers_training() {
    let mut sheet = CharacterSheet::default();
    let mut skills = KeyedMap::new();
    skills.insert("a".to_string(), skill("a", "Stealth", "stealth", 1, false));
    skills.insert("b".to_string(), skill("b", "Stealth", "stealth", 4, true));
    skills.insert("c".to_string(), skill("c", "Stealth", "", 9, false));
    sheet.skills = skills;
    let mut data = CharacterData::default();
    data.sheet = Some(sheet);
    assert_eq!(data.get_skill_modifier("stealth"), Some(4));
    // An exact id wins over any slug match.
    assert_eq!(data.get_skill_modifier("c"), Some(9));
}

#[test]
fn character_custom_attribute_modifier() {
    let mut sheet = CharacterSheet::default();
    let mut attrs = KeyedMap::new();
    attrs.insert(
        "x".to_string(),
        CustomIntField { id: "x".to_string(), name: "Sanity Points".to_string(), value: 17 },
    );
    sheet.custom_attributes = attrs;
    sheet.modifiers.wisdom = 3;
    let mut data = CharacterData::default();
    data.sheet = Some(sheet);
    assert_eq!(data.get_ability_modifier("sanitypoints"), Some(3));
    assert_eq!(data.get_ability_modifier("sanity points"), Some(3));
    assert_eq!(data.get_ability_modifier("WIS"), Some(3));
    assert_eq!(data.get_ability_modifier("luck"), Some(0));
}

#[test]
fn character_migration_fills_ids() {
    let mut sheet = CharacterSheet::default();
    let mut skills = KeyedMap::new();
    skills.insert("Stealth".to_string(), skill("", "", "", 5, true));
    skills.insert("kept-id".to_string(), skill("kept-id", "Arcana", "arcana", 2, false));
    sheet.skills = skills;
    sheet.migrate_to_ids();
    assert_eq!(sheet.skills.len(), 2);
    let kept = sheet.skills.get("kept-id").unwrap();
    assert_eq!(kept.name, "Arcana");
    let (key, stealth) = sheet
        .skills
        .entries
        .iter()
        .find(|(_, s)| s.name == "Stealth")
        .unwrap();
    assert_eq!(key.len(), 36);
    assert_eq!(&stealth.id, key);
    assert_eq!(stealth.slug, "stealth");
    assert_eq!(stealth.modifier, 5);
    assert!(stealth.proficient);
}

#[test]
fn character_migration_fills_custom_names() {
    let mut sheet = CharacterSheet::default();
    let mut info = KeyedMap::new();
    info.insert(
        "Patron".to_string(),
        CustomStringField { id: "p1".to_string(), name: String::new(), value: "Fiend".to_string() },
    );
    sheet.custom_basic_info = info;
    let mut attrs = KeyedMap::new();
    attrs.insert(
        "Luck".to_string(),
        CustomIntField { id: "l1".to_string(), name: String::new(), value: 12 },
    );
    sheet.custom_attributes = attrs;
    sheet.migrate_to_ids();
    let patron = sheet.custom_basic_info.get("Patron").unwrap();
    assert_eq!(patron.name, "Patron");
    assert_eq!(patron.id, "p1");
    assert_eq!(patron.value, "Fiend");
    let luck = sheet.custom_attributes.get("Luck").unwrap();
    assert_eq!(luck.name, "Luck");
    assert_eq!(luck.value, 12);
}

#[test]
fn character_migration_keeps_every_legacy_skill() {
    let mut sheet = CharacterSheet::default();
    let mut skills = KeyedMap::new();
    skills.insert("Stealth".to_string(), skill("", "", "", 5, true));
    skills.insert("Perception".to_string(), skill("", "", "", 3, false));
    skills.insert("Arcana".to_string(), skill("", "", "", 1, false));
    sheet.skills = skills;
    sheet.migrate_to_ids();
    assert_eq!(sheet.skills.len(), 3);
    for name in ["Stealth", "Perception", "Arcana"] {
        let (key, s) = sheet.skills.entries.iter().find(|(_, s)| s.name == name).unwrap();
        assert_eq!(&s.id, key);
        assert_eq!(key.len(), 36);
    }
}

#[test]
fn character_unread_custom_score_does_not_matter() {
    let mut sheet = CharacterSheet::default();
    let mut attrs = KeyedMap::new();
    attrs.insert(
        "x".to_string(),
        CustomIntField { id: "x".to_string(), name: "Weird".to_string(), value: i32::MIN },
    );
    sheet.custom_attributes = attrs;
    sheet.modifiers.dexterity = 2;
    let mut data = CharacterData::default();
    data.sheet = Some(sheet);
    assert_eq!(data.get_ability_modifier("dex"), Some(2));
}
