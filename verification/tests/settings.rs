use ets2_tool::edit::edit_field;
use ets2_tool::extract::extract_i64;
use ets2_tool::locate::locate_block;
use ets2_tool::settings::{apply_setting, setting_file, SettingError, SettingFile};

const CFG: &[u8] = b"uset g_traffic \"1\"\nuset g_developer \"0\"\nuset g_console \"0\"\nuset g_max_convoy_size \"8\"\n";
const INFO: &[u8] = b" info_players_experience: 1200\n info_money_account: 5000\n";

#[test]
fn settings_live_in_their_files() {
    for name in ["traffic", "g_traffic", "developer", "g_developer", "console", "g_console", "max_convoy_size", "g_max_convoy_size"] {
        assert_eq!(setting_file(name.as_bytes()), Some(SettingFile::GlobalConfig), "{name}");
    }
    assert_eq!(setting_file(b"money"), Some(SettingFile::Autosave));
    assert_eq!(setting_file(b"xp"), Some(SettingFile::Autosave));
    assert_eq!(setting_file(b"speed"), None);
    assert_eq!(setting_file(b""), None);
}

#[test]
fn settings_of_the_game_are_applied() {
    assert_eq!(
        apply_setting(CFG, b"traffic", b"7"),
        Ok(b"uset g_traffic \"7\"\nuset g_developer \"0\"\nuset g_console \"0\"\nuset g_max_convoy_size \"8\"\n".to_vec())
    );
    assert_eq!(
        apply_setting(CFG, b"g_max_convoy_size", b"128"),
        Ok(b"uset g_traffic \"1\"\nuset g_developer \"0\"\nuset g_console \"0\"\nuset g_max_convoy_size \"128\"\n".to_vec())
    );
    assert_eq!(
        apply_setting(CFG, b"developer", b"1"),
        Ok(b"uset g_traffic \"1\"\nuset g_developer \"1\"\nuset g_console \"0\"\nuset g_max_convoy_size \"8\"\n".to_vec())
    );
    assert_eq!(
        apply_setting(CFG, b"console", b"1"),
        Ok(b"uset g_traffic \"1\"\nuset g_developer \"0\"\nuset g_console \"1\"\nuset g_max_convoy_size \"8\"\n".to_vec())
    );
}

#[test]
fn money_and_experience_are_applied() {
    assert_eq!(
        apply_setting(INFO, b"money", b"99"),
        Ok(b" info_players_experience: 1200\n info_money_account: 99\n".to_vec())
    );
    assert_eq!(
        apply_setting(INFO, b"xp", b"0"),
        Ok(b" info_players_experience: 0\n info_money_account: 5000\n".to_vec())
    );
}

#[test]
fn settings_fail_as_they_should() {
    assert_eq!(apply_setting(CFG, b"speed", b"1"), Err(SettingError::Unsupported));
    assert_eq!(apply_setting(INFO, b"traffic", b"1"), Err(SettingError::NotFound));
    assert_eq!(apply_setting(CFG, b"money", b"1"), Err(SettingError::NotFound));
}

#[test]
fn what_is_written_is_what_is_read() {
    let doc = b"vehicle : v1 {\n odometer: 100\n fuel: 7\n}\nvehicle : v2 {\n odometer: 5\n}\n";
    for n in [0i64, 7, 250, 1234567890123, i64::MAX] {
        let out = edit_field(doc, b"vehicle", b"v1", b"odometer", n.to_string().as_bytes()).unwrap();
        let (s, e) = locate_block(&out, b"vehicle", b"v1").unwrap();
        assert_eq!(extract_i64(&out[s..e], b"odometer"), Some(n));
        let (s, e) = locate_block(&out, b"vehicle", b"v2").unwrap();
        assert_eq!(extract_i64(&out[s..e], b"odometer"), Some(5));
    }
}
