use mist::EnvMap;

fn no_env() -> EnvMap {
    EnvMap { vars: Vec::new() }
}

#[test]
fn colorization_value_masks_to_rgb() {
    // The colorization value carries ARGB; the alpha byte is dropped.
    assert_eq!(
        mist::get_windows_accent_color(Some(0xAAFF8040), None),
        Some("#FF8040".to_string())
    );
    assert_eq!(mist::get_windows_accent_color(Some(0), None), Some("#000000".to_string()));
}

#[test]
fn accent_menu_value_swizzles_abgr() {
    // The menu accent value carries ABGR: low byte red, then green, then blue.
    assert_eq!(
        mist::get_windows_accent_color(None, Some(0x00224466)),
        Some("#664422".to_string())
    );
}

#[test]
fn colorization_wins_over_accent_menu() {
    assert_eq!(
        mist::get_windows_accent_color(Some(0x112233), Some(0x445566)),
        Some("#112233".to_string())
    );
}

#[test]
fn no_registry_values_no_color() {
    assert_eq!(mist::get_windows_accent_color(None, None), None);
}

#[test]
fn folder_name_takes_the_last_component() {
    assert_eq!(
        mist::get_folder_name("C:\\Users\\me\\Downloads", &no_env()),
        "Downloads"
    );
    assert_eq!(mist::get_folder_name("/var/tmp/", &no_env()), "tmp");
    assert_eq!(mist::get_folder_name("plain", &no_env()), "plain");
}

#[test]
fn folder_name_falls_back_when_empty() {
    assert_eq!(mist::get_folder_name("", &no_env()), "New Folder");
    assert_eq!(mist::get_folder_name("///", &no_env()), "New Folder");
}

#[test]
fn folder_name_expands_placeholders_first() {
    let env = EnvMap {
        vars: vec![("HOME".to_string(), "/users/me".to_string())],
    };
    assert_eq!(mist::get_folder_name("%HOME%/cache", &env), "cache");
    assert_eq!(mist::get_folder_name("%HOME%", &env), "me");
}
