use ets2_tool::config::{
    edit_config_value, edit_console_value, edit_convoy_value, edit_developer_value,
    edit_parking_doubles_value, edit_traffic_value, read_base_config, read_save_config,
    read_traffic_value, set_config_value, ConfigError,
};

const CFG: &str = "# prism3d variable config data\r\n\r\nuset g_traffic \"1\"\r\nuset g_developer \"0\"\r\nuset g_console \"0\"\r\nuset g_max_convoy_size \"8\"\r\nuset g_simple_parking_doubles \"1\"\r\nuset g_lang \"de_de\"\r\n";

fn text(r: Result<Vec<u8>, ConfigError>) -> String {
    String::from_utf8(r.unwrap()).unwrap()
}

#[test]
fn base_config_is_read() {
    let c = read_base_config(CFG.as_bytes());
    assert_eq!(c.traffic, Some(1));
    assert_eq!(c.developer, Some(0));
    assert_eq!(c.console, Some(0));
    assert_eq!(c.max_convoy_size, Some(8));
    let c = read_base_config(b"uset g_traffic 7\nuset g_console \"x\"\n");
    assert_eq!(c.traffic, Some(7));
    assert_eq!(c.console, None);
    assert_eq!(c.developer, None);
}

#[test]
fn save_config_is_read() {
    assert_eq!(read_save_config(CFG.as_bytes()).factor_parking_doubles, Some(1));
    assert_eq!(read_save_config(b"").factor_parking_doubles, None);
}

#[test]
fn traffic_is_held_to_its_range() {
    assert_eq!(read_traffic_value(CFG.as_bytes()), Ok(1));
    assert_eq!(read_traffic_value(b"uset g_traffic \"25\""), Ok(10));
    assert_eq!(read_traffic_value(b"uset g_traffic \"0\""), Ok(0));
    assert_eq!(read_traffic_value(b"uset g_traffic 5"), Err(ConfigError::NotFound));
    assert_eq!(read_traffic_value(b"uset g_traffic \"a\""), Err(ConfigError::NotFound));
    assert_eq!(read_traffic_value(b""), Err(ConfigError::NotFound));
    assert_eq!(
        read_traffic_value(b"uset g_traffic \"99999999999999999999\""),
        Err(ConfigError::Invalid)
    );
}

#[test]
fn settings_are_set_between_their_quotes() {
    assert_eq!(
        text(edit_developer_value(CFG.as_bytes(), 1)),
        CFG.replace("g_developer \"0\"", "g_developer \"1\"")
    );
    assert_eq!(
        text(edit_console_value(CFG.as_bytes(), 1)),
        CFG.replace("g_console \"0\"", "g_console \"1\"")
    );
    assert_eq!(
        text(edit_convoy_value(CFG.as_bytes(), 128)),
        CFG.replace("g_max_convoy_size \"8\"", "g_max_convoy_size \"128\"")
    );
    assert_eq!(
        text(edit_parking_doubles_value(CFG.as_bytes(), 0)),
        CFG.replace("g_simple_parking_doubles \"1\"", "g_simple_parking_doubles \"0\"")
    );
    assert_eq!(
        text(set_config_value(CFG.as_bytes(), b"g_lang", b"en_gb")),
        CFG.replace("de_de", "en_gb")
    );
}

#[test]
fn traffic_is_clamped_when_set() {
    assert_eq!(
        text(edit_traffic_value(CFG.as_bytes(), 99)),
        CFG.replace("g_traffic \"1\"", "g_traffic \"10\"")
    );
    assert_eq!(
        text(edit_traffic_value(CFG.as_bytes(), -3)),
        CFG.replace("g_traffic \"1\"", "g_traffic \"0\"")
    );
    assert_eq!(
        text(edit_traffic_value(CFG.as_bytes(), 4)),
        CFG.replace("g_traffic \"1\"", "g_traffic \"4\"")
    );
}

#[test]
fn a_setting_that_is_not_there_is_not_added() {
    assert_eq!(edit_developer_value(b"uset g_console \"1\"\n", 1), Err(ConfigError::NotFound));
    assert_eq!(edit_developer_value(b"uset g_developer 1\n", 1), Err(ConfigError::NotFound));
    assert_eq!(edit_developer_value(b"uset g_developer \"\"\n", 1), Err(ConfigError::NotFound));
}

#[test]
fn a_line_is_written_anew() {
    assert_eq!(
        edit_config_value(b"a\nuset g_fps   60 x\nb\n", b"g_fps", b"30"),
        b"a\nuset g_fps \"30\"\nb\n".to_vec()
    );
    assert_eq!(edit_config_value(b"a\nb\n", b"g_fps", b"30"), b"a\nb\n".to_vec());
}

#[test]
fn key_at_the_start_of_a_longer_key_sets_another_key() {
    let cfg = b"uset g_traffic_lights \"3\"\nuset g_traffic \"5\"\n";
    assert_eq!(read_base_config(cfg).traffic, Some(5));
    assert_eq!(read_traffic_value(cfg), Ok(5));
    assert_eq!(
        edit_config_value(cfg, b"g_traffic", b"7"),
        b"uset g_traffic_lights \"3\"\nuset g_traffic \"7\"\n".to_vec()
    );
    let only_longer = b"uset g_traffic_lights \"3\"\n";
    assert_eq!(edit_config_value(only_longer, b"g_traffic", b"7"), only_longer.to_vec());
    assert_eq!(read_base_config(b"uset g_traffic5\n").traffic, None);
    assert_eq!(read_base_config(b"reuset g_traffic 5\nuset g_traffic 6\n").traffic, Some(6));
}
