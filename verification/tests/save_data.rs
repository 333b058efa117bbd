use ets2_tool::save_data::{
    edit_level, edit_money, edit_player_experience, edit_player_money, edit_skill_value, edit_xp,
    extract_value, read_all_save_data, read_money, read_xp, SaveEditError,
};

const INFO: &str = "SiiNunit\n{\nsave_container : _nameless.1 {\n name: \"Test\"\n info_players_experience: 1200\n info_unlocked_recruitments: 3\n info_unlocked_dealers: 4\n info_visited_cities: 17\n info_money_account: 5000\n}\n}\n";
const GAME: &str = "SiiNunit\n{\neconomy : e {\n experience_points: 1500\n adr: 3\n long_dist: 2\n}\nbank : b {\n  money_account: 7000\n}\n}\n";

#[test]
fn figures_of_the_summary() {
    let d = read_all_save_data(INFO.as_bytes());
    assert_eq!(d.money, Some(5000));
    assert_eq!(d.xp, Some(1200));
    assert_eq!(d.recruitments, Some(3));
    assert_eq!(d.dealers, Some(4));
    assert_eq!(d.visited_cities, Some(17));
}

#[test]
fn the_owning_unit_is_preferred() {
    let both = format!("{}{}", INFO, GAME);
    let d = read_all_save_data(both.as_bytes());
    assert_eq!(d.money, Some(7000));
    assert_eq!(d.xp, Some(1500));
    assert_eq!(read_money(both.as_bytes()), 7000);
    assert_eq!(read_xp(both.as_bytes()), 1500);
    assert_eq!(read_money(INFO.as_bytes()), 5000);
    assert_eq!(read_money(b""), 0);
    assert_eq!(read_xp(b"nothing"), 0);
}

#[test]
fn a_number_at_the_start_of_its_line() {
    assert_eq!(extract_value(b" x: 1\n\t money: -25\n", b"money"), Some(-25));
    assert_eq!(extract_value(b"a money: 5\nmoney: 6", b"money"), Some(6));
    assert_eq!(extract_value(b"money: -9223372036854775808", b"money"), Some(i64::MIN));
    assert_eq!(extract_value(b"money: -9223372036854775809", b"money"), None);
    assert_eq!(extract_value(b"money: 9223372036854775807", b"money"), Some(i64::MAX));
    assert_eq!(extract_value(b"money: 9223372036854775808", b"money"), None);
    assert_eq!(extract_value(b"money: -", b"money"), None);
    assert_eq!(extract_value(b"", b"money"), None);
}

#[test]
fn money_is_set_in_both_places() {
    let both = format!("{}{}", INFO, GAME);
    let out = String::from_utf8(edit_money(both.as_bytes(), 42)).unwrap();
    assert_eq!(
        out,
        both.replace("info_money_account: 5000", "info_money_account: 42")
            .replace("  money_account: 7000", "  money_account: 42")
    );
    assert_eq!(edit_money(b"nothing here", 1), b"nothing here".to_vec());
}

#[test]
fn experience_is_set_in_both_places() {
    let both = format!("{}{}", INFO, GAME);
    let want = both
        .replace("info_players_experience: 1200", "info_players_experience: 9")
        .replace(" experience_points: 1500", " experience_points: 9");
    assert_eq!(String::from_utf8(edit_xp(both.as_bytes(), 9)).unwrap(), want);
    assert_eq!(String::from_utf8(edit_level(both.as_bytes(), 9)).unwrap(), want);
}

#[test]
fn figures_of_the_player_have_to_be_there() {
    assert_eq!(
        edit_player_money(GAME.as_bytes(), 1).map(|d| String::from_utf8(d).unwrap()),
        Ok(GAME.replace("money_account: 7000", "money_account: 1"))
    );
    assert_eq!(
        edit_player_experience(GAME.as_bytes(), 77).map(|d| String::from_utf8(d).unwrap()),
        Ok(GAME.replace("experience_points: 1500", "experience_points: 77"))
    );
    assert_eq!(edit_player_money(b"x", 1), Err(SaveEditError::FieldNotFound));
    assert_eq!(edit_player_experience(b"x", 1), Err(SaveEditError::FieldNotFound));
}

#[test]
fn a_skill_is_set_where_its_name_starts_a_word() {
    assert_eq!(
        edit_skill_value(GAME.as_bytes(), b"adr", 6).map(|d| String::from_utf8(d).unwrap()),
        Ok(GAME.replace("adr: 3", "adr: 6"))
    );
    assert_eq!(
        edit_skill_value(b"quadr: 1\n adr: 2\n", b"adr", 5),
        Ok(b"quadr: 1\n adr: 5\n".to_vec())
    );
    assert_eq!(edit_skill_value(b"quadr: 1\n", b"adr", 5), Err(SaveEditError::FieldNotFound));
}
