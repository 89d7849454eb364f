use dndgamerolls::character::CharacterData;
use dndgamerolls::sheet::{Attributes, CharacterInfo, CharacterSheet, Combat};
use dndgamerolls::store::{CharacterDatabase, CharacterManager};

fn create_test_sheet(name: &str) -> CharacterSheet {
    let mut character = CharacterInfo::default();
    character.name = name.to_string();
    character.class = "Fighter".to_string();
    character.race = "Human".to_string();
    character.level = 1;
    let mut combat = Combat::default();
    combat.armor_class = 10;
    combat.initiative = 0;
    let mut sheet = CharacterSheet::default();
    sheet.character = character;
    sheet.attributes = Attributes {
        strength: 10,
        dexterity: 10,
        constitution: 10,
        intelligence: 10,
        wisdom: 10,
        charisma: 10,
    };
    sheet.combat = combat;
    sheet
}

#[test]
fn test_create_and_load_character() {
    let mut db = CharacterDatabase::open_in_memory().unwrap();
    let sheet = create_test_sheet("Gimli");

    let id = db.create_character(&sheet).unwrap();
    let loaded = db.load_character(id).unwrap();
    assert_eq!(loaded.character.name, "Gimli");
}

#[test]
fn test_update_character() {
    let mut db = CharacterDatabase::open_in_memory().unwrap();
    let mut sheet = create_test_sheet("Thorin");

    let id = db.create_character(&sheet).unwrap();

    sheet.character.name = "Thorin Oakenshield".to_string();
    db.update_character(id, &sheet).unwrap();

    let loaded = db.load_character(id).unwrap();
    assert_eq!(loaded.character.name, "Thorin Oakenshield");
    assert_eq!(db.character_count().unwrap(), 1);
}

#[test]
fn test_list_characters() {
    let mut db = CharacterDatabase::open_in_memory().unwrap();

    db.create_character(&create_test_sheet("Aragorn")).unwrap();
    db.create_character(&create_test_sheet("Gandalf")).unwrap();
    db.create_character(&create_test_sheet("Legolas")).unwrap();

    let list = db.list_characters().unwrap();
    assert_eq!(list.len(), 3);
    assert_eq!(list[0].name, "Aragorn");
    assert_eq!(list[1].name, "Gandalf");
    assert_eq!(list[2].name, "Legolas");
}

#[test]
fn test_delete_character() {
    let mut db = CharacterDatabase::open_in_memory().unwrap();
    let sheet = create_test_sheet("Frodo");

    let id = db.create_character(&sheet).unwrap();
    assert_eq!(db.character_count().unwrap(), 1);

    db.delete_character(id).unwrap();
    assert_eq!(db.character_count().unwrap(), 0);
}

#[test]
fn test_name_exists() {
    let mut db = CharacterDatabase::open_in_memory().unwrap();
    let sheet = create_test_sheet("Bilbo");

    let id = db.create_character(&sheet).unwrap();

    assert!(db.name_exists("Bilbo", None).unwrap());
    assert!(!db.name_exists("Frodo", None).unwrap());
    assert!(!db.name_exists("Bilbo", Some(id)).unwrap());
}

#[test]
fn test_save_character_creates_or_updates() {
    let mut db = CharacterDatabase::open_in_memory().unwrap();
    let mut sheet = create_test_sheet("Sam");

    let id = db.save_character(None, &sheet).unwrap();
    assert_eq!(db.character_count().unwrap(), 1);

    sheet.character.level = 5;
    let same_id = db.save_character(Some(id), &sheet).unwrap();
    assert_eq!(id, same_id);
    assert_eq!(db.character_count().unwrap(), 1);

    let loaded = db.load_character(id).unwrap();
    assert_eq!(loaded.character.level, 5);
}

#[test]
fn test_settings_round_trip_includes_background_color() {
    fn approx_eq(a: f32, b: f32) -> bool {
        (a - b).abs() < 1e-6
    }

    let mut db = CharacterDatabase::open_in_memory().unwrap();

    let mut color = serde_json::Map::new();
    color.insert("a".to_string(), serde_json::Value::from(0.75f32));
    color.insert("r".to_string(), serde_json::Value::from(0.12f32));
    color.insert("g".to_string(), serde_json::Value::from(0.34f32));
    color.insert("b".to_string(), serde_json::Value::from(0.56f32));
    let mut settings = serde_json::Map::new();
    settings.insert("background_color".to_string(), serde_json::Value::Object(color));
    let text = serde_json::Value::Object(settings).to_string();

    db.set_setting("app_settings", text).unwrap();
    let loaded_text = db.get_setting("app_settings").unwrap().unwrap();
    let loaded: serde_json::Value = serde_json::from_str(&loaded_text).unwrap();
    let bg = &loaded["background_color"];

    assert!(approx_eq(bg["a"].as_f64().unwrap() as f32, 0.75));
    assert!(approx_eq(bg["r"].as_f64().unwrap() as f32, 0.12));
    assert!(approx_eq(bg["g"].as_f64().unwrap() as f32, 0.34));
    assert!(approx_eq(bg["b"].as_f64().unwrap() as f32, 0.56));
}

#[test]
fn store_ids_follow_the_largest_id() {
    let mut db = CharacterDatabase::open_in_memory().unwrap();
    let a = db.create_character(&create_test_sheet("A")).unwrap();
    let b = db.create_character(&create_test_sheet("B")).unwrap();
    assert_eq!((a, b), (1, 2));
    db.delete_character(a).unwrap();
    let c = db.create_character(&create_test_sheet("C")).unwrap();
    assert_eq!(c, 3);
    db.delete_character(c).unwrap();
    db.delete_character(b).unwrap();
    assert_eq!(db.create_character(&create_test_sheet("D")).unwrap(), 1);
}

#[test]
fn store_missing_character_errors() {
    let mut db = CharacterDatabase::open_in_memory().unwrap();
    assert_eq!(
        db.load_character(7).err(),
        Some("Character with id 7 not found".to_string())
    );
    assert_eq!(
        db.update_character(-3, &create_test_sheet("X")).err(),
        Some("Character with id -3 not found".to_string())
    );
    assert_eq!(db.character_count().unwrap(), 0);
    assert_eq!(
        db.save_character(Some(4), &create_test_sheet("X")).err(),
        Some("Character with id 4 not found".to_string())
    );
    // Deleting a missing character is not an error.
    assert!(db.delete_character(99).is_ok());
    assert!(!db.character_id_exists(1).unwrap());
}

#[test]
fn store_deleted_character_is_not_found() {
    let mut db = CharacterDatabase::open_in_memory().unwrap();
    let id = db.create_character(&create_test_sheet("Pippin")).unwrap();
    assert!(db.character_id_exists(id).unwrap());
    db.delete_character(id).unwrap();
    assert!(!db.character_id_exists(id).unwrap());
    assert_eq!(
        db.load_character(id).err(),
        Some(format!("Character with id {} not found", id))
    );
}

#[test]
fn store_legacy_characters_keep_their_id() {
    let mut db = CharacterDatabase::open_in_memory().unwrap();
    db.upsert_legacy_character(40, &create_test_sheet("Old")).unwrap();
    assert!(db.legacy_sqlite_id_exists(40).unwrap());
    assert!(!db.legacy_sqlite_id_exists(41).unwrap());
    assert_eq!(db.load_character(40).unwrap().character.name, "Old");
    // The next new character follows the largest id.
    assert_eq!(db.create_character(&create_test_sheet("New")).unwrap(), 41);
    // Converting again replaces rather than duplicates.
    db.upsert_legacy_character(40, &create_test_sheet("Older")).unwrap();
    assert_eq!(db.character_count().unwrap(), 2);
    assert_eq!(db.load_character(40).unwrap().character.name, "Older");
}

#[test]
fn store_list_is_sorted_with_duplicates_and_prefixes() {
    let mut db = CharacterDatabase::open_in_memory().unwrap();
    for name in ["bob", "Bob", "Al", "Alice", "Bob"] {
        db.create_character(&create_test_sheet(name)).unwrap();
    }
    let names: Vec<String> = db.list_characters().unwrap().into_iter().map(|e| e.name).collect();
    assert_eq!(names, vec!["Al", "Alice", "Bob", "Bob", "bob"]);
}

#[test]
fn store_settings_and_history() {
    let mut db = CharacterDatabase::open_in_memory().unwrap();
    assert_eq!(db.get_setting("theme").unwrap(), None);
    db.set_setting("theme", "{\"seed\":1}".to_string()).unwrap();
    db.set_setting("theme", "{\"seed\":2}".to_string()).unwrap();
    assert_eq!(db.get_setting("theme").unwrap(), Some("{\"seed\":2}".to_string()));
    assert!(db.load_command_history().unwrap().is_empty());
    let cmds = vec!["--dice 2d6".to_string(), "d20".to_string()];
    db.save_command_history(&cmds).unwrap();
    assert_eq!(db.load_command_history().unwrap(), cmds);
}

#[test]
fn character_data_saves_and_loads() {
    let mut db = CharacterDatabase::open_in_memory().unwrap();
    let mut data = CharacterData::default();
    assert_eq!(
        data.save_to_database(&mut db).err(),
        Some("No character data to save".to_string())
    );
    data.sheet = Some(create_test_sheet("Merry"));
    data.is_modified = true;
    data.save_to_database(&mut db).unwrap();
    assert_eq!(data.character_id, Some(1));
    assert!(!data.is_modified);

    let loaded = CharacterData::load_from_database(&db, 1).unwrap();
    assert_eq!(loaded.sheet.as_ref().unwrap().character.name, "Merry");
    assert_eq!(loaded.character_id, Some(1));
    assert!(!loaded.is_modified);
    assert!(loaded.needs_refresh);
    assert!(CharacterData::load_from_database(&db, 2).is_err());

    let mut manager = CharacterManager::default();
    manager.refresh_from_database(&db);
    assert_eq!(manager.characters.len(), 1);
    assert_eq!(manager.characters[0].id, 1);
    assert_eq!(manager.characters[0].class, "Fighter");
}

#[test]
fn store_legacy_path_is_in_the_data_dir() {
    assert_eq!(
        CharacterDatabase::legacy_sqlite_path(Some("/home/a/.local/share/DnDGameRolls".to_string())),
        Some("/home/a/.local/share/DnDGameRolls/characters.db".to_string())
    );
    assert_eq!(CharacterDatabase::legacy_sqlite_path(None), None);
}
