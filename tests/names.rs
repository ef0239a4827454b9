use etb_save_core::names::{extract_archive_name, get_browser_args, map_item_id_to_name};

#[test]
fn archive_name_drops_sav_suffix() {
    assert_eq!(extract_archive_name("SINGLEPLAYER_a_Easy.sav"), "SINGLEPLAYER_a_Easy");
    assert_eq!(extract_archive_name("plain"), "plain");
    assert_eq!(extract_archive_name(".sav"), "");
    assert_eq!(extract_archive_name("x.sav.sav"), "x.sav");
    assert_eq!(extract_archive_name("x.SAV"), "x.SAV");
}

#[test]
fn item_ids_map_to_names() {
    assert_eq!(map_item_id_to_name(1), "AlmondConcentrate");
    assert_eq!(map_item_id_to_name(18), "LiDAR");
    assert_eq!(map_item_id_to_name(25), "Toy");
    assert_eq!(map_item_id_to_name(0), "None");
    assert_eq!(map_item_id_to_name(-1), "None");
    assert_eq!(map_item_id_to_name(26), "None");
}

#[test]
fn browser_args_follow_gpu_setting() {
    assert_eq!(
        get_browser_args(true),
        vec!["--disable-gpu", "--disable-gpu-sandbox", "--disable-software-rasterizer"]
    );
    assert_eq!(
        get_browser_args(false),
        vec![
            "--disable-gpu-sandbox",
            "--disable-software-rasterizer",
            "--enable-gpu-rasterization",
            "--force-gpu-rasterization"
        ]
    );
}

#[test]
fn theme_ids() {
    use_theme_checks();
}

fn use_theme_checks() {
    let check = etb_save_core::themes::validate_theme_id;
    assert_eq!(check("dark-mode_2"), Ok(()));
    assert_eq!(check("日本"), Ok(()));
    assert_eq!(check(""), Err("Theme ID must be 1-64 characters".to_string()));
    assert_eq!(check(&"a".repeat(65)), Err("Theme ID must be 1-64 characters".to_string()));
    assert_eq!(check(&"a".repeat(64)), Ok(()));
    assert_eq!(check("../x"), Err("Theme ID contains invalid characters".to_string()));
    assert_eq!(check("a b"), Err("Theme ID contains invalid characters".to_string()));
}
