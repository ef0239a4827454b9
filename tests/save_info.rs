use etb_save_core::save_info::{build_save_info, split_save_file_name};

fn info(file: &str) -> Result<etb_save_core::save_info::SaveFileInfo, String> {
    build_save_info(
        3,
        file,
        "C:/saves/x.sav",
        false,
        "Level1".to_string(),
        "Hard".to_string(),
        "2024-01-02".to_string(),
    )
}

#[test]
fn file_names_split_at_the_last_underscore() {
    assert_eq!(
        split_save_file_name("SINGLEPLAYER_my_save_Easy.sav"),
        Some(("SINGLEPLAYER", "my_save", "Easy"))
    );
    assert_eq!(split_save_file_name("MULTIPLAYER_a_1_2.sav"), Some(("MULTIPLAYER", "a_1", "2")));
    assert_eq!(split_save_file_name("MULTIPLAYER__Easy.sav"), None);
    assert_eq!(split_save_file_name("MULTIPLAYER_x_EASY.sav"), None);
    assert_eq!(split_save_file_name("COOP_x_Easy.sav"), None);
    assert_eq!(split_save_file_name("MULTIPLAYER_x_Easy.sav.bak"), None);
    assert_eq!(split_save_file_name("MULTIPLAYER_a\nb_Easy.sav"), None);
}

#[test]
fn save_rows() {
    let row = info("MULTIPLAYER_Run_nightmare.sav").unwrap();
    assert_eq!(row.id, 3);
    assert_eq!(row.name, "Run");
    assert_eq!(row.mode, "多人模式");
    assert_eq!(row.difficulty, "噩梦难度");
    assert_eq!(row.difficulty_class, "Nightmare");
    assert_eq!(row.actual_difficulty, "Hard");
    assert_eq!(row.current_level, "Level1");
    assert_eq!(row.date, "2024-01-02");
    assert_eq!(row.path, "C:/saves/x.sav");
    assert!(!row.hidden);
    assert_eq!(row.is_visible, None);
    let numbered = info("SINGLEPLAYER_Run_7.sav").unwrap();
    assert_eq!(numbered.mode, "单人模式");
    assert_eq!(numbered.difficulty, "普通难度");
    assert_eq!(numbered.difficulty_class, "Normal");
    assert_eq!(info("bad.sav").unwrap_err(), "文件名格式不匹配: bad.sav");
}
