use dndgamerolls::contributors::{Contributor, ContributorsData, ContributorsState};
use dndgamerolls::designer::{DiceTextureConfig, TextureType};
use dndgamerolls::dice::DiceType;
use dndgamerolls::icons::{generate_icon_pixels, IconType};
use dndgamerolls::legacy::{
    backup_name, database_path, decode_legacy_data_text, is_recoverable_store_error, join_path,
    legacy_row_data, legacy_sqlite_path, linux_data_dir, LegacyDataCell,
};

#[test]
fn test_contributor_display_name_with_name() {
    let contributor = Contributor {
        login: "testuser".to_string(),
        name: Some("Test User".to_string()),
        avatar_url: String::new(),
        profile_url: String::new(),
        contributions: 10,
        role: None,
    };
    assert_eq!(contributor.display_name(), "Test User");
}

#[test]
fn test_contributor_display_name_without_name() {
    let contributor = Contributor {
        login: "testuser".to_string(),
        name: None,
        avatar_url: String::new(),
        profile_url: String::new(),
        contributions: 10,
        role: None,
    };
    assert_eq!(contributor.display_name(), "testuser");
}

#[test]
fn test_contributors_data_default() {
    let data = ContributorsData::default();
    assert!(data.contributors.is_empty());
}

#[test]
fn contributors_offline_list() {
    let data = ContributorsData::default_contributors();
    assert_eq!(data.last_updated, "offline");
    assert_eq!(data.repository, "edgarhsanchez/dndgamerolls");
    assert_eq!(data.contributors.len(), 1);
    let owner = &data.contributors[0];
    assert_eq!(owner.display_name(), "Edgar Sanchez");
    assert_eq!(owner.avatar_url, "https://github.com/edgarhsanchez.png?size=64");
    assert_eq!(owner.profile_url, "https://github.com/edgarhsanchez");
    assert_eq!(owner.role.as_deref(), Some("Creator"));
    let fallback = ContributorsData::from_parsed(Err("bad file".to_string()));
    assert_eq!(fallback.last_updated, "offline");
    assert_eq!(fallback.repository, "edgarhsanchez/dndgamerolls");
    assert_eq!(fallback.contributors.len(), 1);
    assert_eq!(fallback.contributors[0].login, "edgarhsanchez");
    assert_eq!(fallback.contributors[0].name.as_deref(), Some("Edgar Sanchez"));
    assert_eq!(fallback.contributors[0].contributions, 0);
    assert_eq!(fallback.contributors[0].role.as_deref(), Some("Creator"));
    let state = ContributorsState::default();
    assert!(!state.loaded);
}

#[test]
fn legacy_text_decoding() {
    assert_eq!(decode_legacy_data_text("aGVsbG8=").unwrap(), b"hello".to_vec());
    assert_eq!(decode_legacy_data_text("  base64:aGVsbG8=\n").unwrap(), b"hello".to_vec());
    assert_eq!(decode_legacy_data_text(" {\"a\":1} ").unwrap(), b"{\"a\":1}".to_vec());
    assert_eq!(decode_legacy_data_text("héllo").unwrap(), "héllo".as_bytes().to_vec());
    assert_eq!(decode_legacy_data_text("base64:").unwrap(), Vec::<u8>::new());
}

#[test]
fn legacy_rows() {
    assert_eq!(legacy_row_data(3, LegacyDataCell::Blob(vec![1, 2])).unwrap(), vec![1, 2]);
    assert_eq!(
        legacy_row_data(3, LegacyDataCell::Text("base64:AQI=".to_string())).unwrap(),
        vec![1, 2]
    );
    assert_eq!(
        legacy_row_data(3, LegacyDataCell::Null).err(),
        Some("Legacy SQLite row id 3 has NULL data; cannot migrate".to_string())
    );
    assert_eq!(
        legacy_row_data(-8, LegacyDataCell::InvalidText("bad byte".to_string())).err(),
        Some("Legacy SQLite data for id -8 is not valid UTF-8: bad byte".to_string())
    );
    assert_eq!(
        legacy_row_data(5, LegacyDataCell::Other("Integer(7)".to_string())).err(),
        Some("Legacy SQLite row id 5 has unsupported data type Integer(7); cannot migrate".to_string())
    );
}

#[test]
fn legacy_paths() {
    assert_eq!(join_path("/a", "b"), "/a/b");
    assert_eq!(join_path("/a/", "b"), "/a/b");
    assert_eq!(join_path("", "b"), "b");
    assert_eq!(
        linux_data_dir(Some("/x/data".to_string()), Some("/home/u".to_string())),
        Some("/x/data/DnDGameRolls".to_string())
    );
    assert_eq!(
        linux_data_dir(None, Some("/home/u".to_string())),
        Some("/home/u/.local/share/DnDGameRolls".to_string())
    );
    assert_eq!(linux_data_dir(Some(String::new()), None), Some("DnDGameRolls".to_string()));
    assert_eq!(linux_data_dir(None, None), None);
    assert_eq!(legacy_sqlite_path(Some("/d".to_string())), Some("/d/characters.db".to_string()));
    assert_eq!(legacy_sqlite_path(None), None);
    assert_eq!(database_path("/d/"), "/d/characters.surrealdb");
}

#[test]
fn legacy_store_recovery() {
    assert!(is_recoverable_store_error(
        "Failed to open SurrealDB: Unsupported manifest format version 3"
    ));
    assert!(is_recoverable_store_error("io: unexpected end of file"));
    assert!(!is_recoverable_store_error("Failed to open SurrealDB: permission denied"));
    assert!(!is_recoverable_store_error(""));
    assert_eq!(backup_name(1700000000, true), "characters.surrealdb.file.bak-1700000000");
    assert_eq!(backup_name(0, false), "characters.surrealdb.bak-0");
}

fn pixel(p: &[u8], x: usize, y: usize) -> [u8; 4] {
    let i = (y * 32 + x) * 4;
    [p[i], p[i + 1], p[i + 2], p[i + 3]]
}

#[test]
fn icons_are_32_by_32() {
    let all = IconType::all();
    assert_eq!(all.len(), 13);
    assert_eq!(all[0], IconType::Dice);
    assert_eq!(all[12], IconType::Collapse);
    for t in all {
        let p = generate_icon_pixels(t);
        assert_eq!(p.len(), 32 * 32 * 4);
        assert!(p.chunks(4).any(|c| c[3] == 255));
        assert_eq!(pixel(&p, 0, 0), [0, 0, 0, 0]);
    }
}

#[test]
fn icons_pixels() {
    let add = generate_icon_pixels(IconType::Add);
    assert_eq!(pixel(&add, 16, 16), [100, 220, 100, 255]);
    assert_eq!(pixel(&add, 6, 14), [100, 220, 100, 255]);
    assert_eq!(pixel(&add, 5, 14), [0, 0, 0, 0]);
    let save = generate_icon_pixels(IconType::Save);
    assert_eq!(pixel(&save, 6, 6), [100, 150, 220, 255]);
    assert_eq!(pixel(&save, 12, 7), [230, 230, 230, 255]);
    assert_eq!(pixel(&save, 14, 20), [40, 40, 50, 255]);
    let expand = generate_icon_pixels(IconType::Expand);
    assert_eq!(pixel(&expand, 16, 10), [180, 180, 200, 255]);
    assert_eq!(pixel(&expand, 17, 10), [0, 0, 0, 0]);
    assert_eq!(pixel(&expand, 7, 19), [180, 180, 200, 255]);
    let collapse = generate_icon_pixels(IconType::Collapse);
    assert_eq!(pixel(&collapse, 7, 10), [180, 180, 200, 255]);
    assert_eq!(pixel(&collapse, 17, 19), [0, 0, 0, 0]);
    let cancel = generate_icon_pixels(IconType::Cancel);
    assert_eq!(pixel(&cancel, 16, 16), [220, 100, 100, 255]);
    assert_eq!(pixel(&cancel, 8, 8), [220, 100, 100, 255]);
    let settings = generate_icon_pixels(IconType::Settings);
    assert_eq!(pixel(&settings, 16, 16), [0, 0, 0, 0]);
    assert_eq!(pixel(&settings, 16, 9), [180, 180, 190, 255]);
}

#[test]
fn icons_gear_teeth_follow_the_circle() {
    // The teeth sit at 12 pixels from the centre every 45 degrees.
    let settings = generate_icon_pixels(IconType::Settings);
    for i in 0..8 {
        let angle = (i as f32) * std::f32::consts::PI / 4.0;
        let tx = 16 + (12.0 * angle.cos()) as i32;
        let ty = 16 + (12.0 * angle.sin()) as i32;
        for dy in -2..=2 {
            for dx in -2..=2 {
                let (x, y) = ((tx + dx) as usize, (ty + dy) as usize);
                assert_eq!(pixel(&settings, x, y), [180, 180, 190, 255], "tooth {} at {},{}", i, x, y);
            }
        }
    }
}

#[test]
fn designer_textures() {
    let cfg = DiceTextureConfig::new(DiceType::D8);
    assert_eq!(cfg.die_type, DiceType::D8);
    assert_eq!(cfg.face_textures.len(), 8);
    for v in 1..=8u32 {
        let set = &cfg.face_textures[&v];
        assert!(set.color_path.is_none() && set.depth_path.is_none() && set.normal_path.is_none());
    }
    assert!(!cfg.face_textures.contains_key(&0));
    assert!(!cfg.face_textures.contains_key(&9));
    assert_eq!(TextureType::Depth.display_name(), "Depth Map");
    assert_eq!(TextureType::Normal.description(), "Normal map for surface detail lighting (PNG)");
}
