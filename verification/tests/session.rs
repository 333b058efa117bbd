use ets2_tool::models::{classify_save_folder, SaveKind};
use ets2_tool::paths::{
    ats_base_path, autosave_path, autosave_path_current, base_config_path, ets2_base_config_path,
    ets2_base_path, game_sii_from_save, get_base_path, info_sii_from_save, join, parent,
    quicksave_config_path, quicksave_game_path, PathError,
};
use ets2_tool::state::{
    clear_current_profile, get_current_profile, get_selected_game, require_current_profile,
    require_current_save, set_active_profile, set_current_profile, set_current_save,
    set_selected_game, switch_profile, AppProfileState, DecryptCache, StateError,
};

#[test]
fn paths_of_a_profile() {
    assert_eq!(autosave_path("/p/1"), "/p/1/save/quicksave/info.sii");
    assert_eq!(quicksave_game_path("/p/1"), "/p/1/save/quicksave/game.sii");
    assert_eq!(quicksave_config_path("/p/1"), "/p/1/config.cfg");
    assert_eq!(quicksave_config_path("/p/1/"), "/p/1/config.cfg");
    assert_eq!(quicksave_config_path("C:\\p\\"), "C:\\p\\config.cfg");
    assert_eq!(autosave_path(""), "save/quicksave/info.sii");
}

#[test]
fn paths_below_the_documents_directory() {
    assert_eq!(ets2_base_path(Some("/d")), Some("/d/Euro Truck Simulator 2".to_string()));
    assert_eq!(ats_base_path(Some("/d")), Some("/d/American Truck Simulator".to_string()));
    assert_eq!(get_base_path("ats", Some("/d")), Some("/d/American Truck Simulator".to_string()));
    assert_eq!(get_base_path("ets2", Some("/d")), Some("/d/Euro Truck Simulator 2".to_string()));
    assert_eq!(get_base_path("other", Some("/d")), Some("/d/Euro Truck Simulator 2".to_string()));
    assert_eq!(get_base_path("ats", None), None);
    assert_eq!(
        ets2_base_config_path(Some("/d")),
        Some("/d/Euro Truck Simulator 2/config.cfg".to_string())
    );
    assert_eq!(ets2_base_config_path(None), None);
    assert_eq!(base_config_path(None), Err(PathError::NoDocumentDir));
    assert_eq!(
        base_config_path(Some("/d")),
        Ok("/d/Euro Truck Simulator 2/config.cfg".to_string())
    );
}

#[test]
fn files_of_a_save() {
    assert_eq!(game_sii_from_save("/p/save/3", false), "/p/save/3/game.sii");
    assert_eq!(game_sii_from_save("/p/save/3/info.sii", true), "/p/save/3/game.sii");
    assert_eq!(info_sii_from_save("/p/save/3", false), "/p/save/3/info.sii");
    assert_eq!(info_sii_from_save("C:\\p\\save\\3\\game.sii", true), "C:\\p\\save\\3/info.sii");
    assert_eq!(info_sii_from_save("game.sii", true), "info.sii");
    assert_eq!(info_sii_from_save("/game.sii", true), "/info.sii");
}

#[test]
fn join_and_parent() {
    assert_eq!(join("a", "b"), "a/b");
    assert_eq!(join("a/", "b"), "a/b");
    assert_eq!(join("", "b"), "b");
    assert_eq!(join("ä", "ö"), "ä/ö");
    assert_eq!(parent("a/b/c"), "a/b");
    assert_eq!(parent("a"), "");
    assert_eq!(parent("/a"), "/");
    assert_eq!(parent(""), "");
    assert_eq!(parent("ä/ö"), "ä");
}

#[test]
fn autosave_of_the_active_profile() {
    assert_eq!(autosave_path_current(Some("/p")), Ok("/p/save/autosave.sii".to_string()));
    assert_eq!(autosave_path_current(None), Err(PathError::NoProfile));
}

#[test]
fn session_state() {
    let mut s = AppProfileState::new();
    assert_eq!(get_current_profile(&s), None);
    assert_eq!(require_current_profile(&s), Err(StateError::NoProfile));
    assert_eq!(require_current_save(&s), Err(StateError::NoSave));
    assert_eq!(get_selected_game(&s), "ets2");
    set_current_profile(&mut s, "/p/1".to_string());
    assert_eq!(get_current_profile(&s), Some("/p/1".to_string()));
    assert_eq!(require_current_profile(&s), Ok("/p/1".to_string()));
    set_selected_game(&mut s, "ats".to_string());
    assert_eq!(get_selected_game(&s), "ats");
    clear_current_profile(&mut s);
    assert_eq!(get_current_profile(&s), None);
}

#[test]
fn cache_stores_and_invalidates_by_path() {
    let mut c = DecryptCache::new();
    assert_eq!(c.get("/a"), None);
    c.insert("/a", b"one".to_vec());
    c.insert("/b", b"two".to_vec());
    assert_eq!(c.get("/a"), Some(b"one".to_vec()));
    assert_eq!(c.get("/b"), Some(b"two".to_vec()));
    c.insert("/a", b"three".to_vec());
    assert_eq!(c.get("/a"), Some(b"three".to_vec()));
    c.invalidate_path("/a");
    assert_eq!(c.get("/a"), None);
    assert_eq!(c.get("/b"), Some(b"two".to_vec()));
    c.invalidate_path("/missing");
    assert_eq!(c.get("/b"), Some(b"two".to_vec()));
    c.clear();
    assert_eq!(c.get("/b"), None);
}

#[test]
fn changing_profile_or_save_empties_the_cache() {
    let mut s = AppProfileState::new();
    let mut c = DecryptCache::new();
    c.insert("/a", b"one".to_vec());
    set_active_profile(&mut s, &mut c, "/p/2".to_string());
    assert_eq!(c.get("/a"), None);
    assert_eq!(require_current_profile(&s), Ok("/p/2".to_string()));
    c.insert("/a", b"one".to_vec());
    set_current_save(&mut s, &mut c, "/p/2/save/1".to_string());
    assert_eq!(c.get("/a"), None);
    assert_eq!(require_current_save(&s), Ok("/p/2/save/1".to_string()));
    c.insert("/a", b"one".to_vec());
    switch_profile(&mut c);
    assert_eq!(c.get("/a"), None);
}

#[test]
fn save_folders_are_told_by_name() {
    assert_eq!(classify_save_folder(b"quicksave"), SaveKind::Autosave);
    assert_eq!(classify_save_folder(b"AutoSave"), SaveKind::Autosave);
    assert_eq!(classify_save_folder(b"17"), SaveKind::Manual);
    assert_eq!(classify_save_folder(b""), SaveKind::Manual);
    assert_eq!(classify_save_folder(b"17a"), SaveKind::Invalid);
    assert_eq!(classify_save_folder(b"autosave_drive"), SaveKind::Invalid);
}
