use ets2_tool::quicksave::{quicksave_game_info, QuicksaveError};
use ets2_tool::translator::{
    get_available_languages, get_current_language, language_info, set_language, t, Entry, Language,
    TranslateError, Translator,
};
use ets2_tool::vehicles::{get_player_trailer, get_player_truck, VehicleError};

const SAVE: &str = "SiiNunit
{
economy : _nameless.eco {
 bank: _nameless.bank
 player: _nameless.player
 experience_points: 1500
 adr: 3
 long_dist: 2
 heavy: 1
 fragile: 0
 urgent: 5
 mechanical: 4
}

bank : _nameless.bank {
 money_account: 7000
}

player : _nameless.player {
 my_truck: _nameless.truck.1
 my_trailer: _nameless.trailer.7
}

vehicle : _nameless.truck.1 {
 odometer: 37619
 trip_fuel_l: 1128
 license_plate: \"ABC 123|de\"
 accessories[0]: _nameless.acc.2
}

vehicle_accessory : _nameless.acc.2 {
 data_path: \"/def/vehicle/truck/volvo.fh16_2012/data.sii\"
}

trailer : _nameless.trailer.7 {
 license_plate: \"TR 77|de\"
 cargo_mass: &461c4000
}
}
";

#[test]
fn overview_of_a_save() {
    let g = quicksave_game_info(SAVE.as_bytes()).unwrap();
    assert_eq!(g.player_id, b"_nameless.player".to_vec());
    assert_eq!(g.bank_id, b"_nameless.bank".to_vec());
    assert_eq!(g.player_xp, Some(1500));
    assert_eq!(g.player_my_truck, Some(b"_nameless.truck.1".to_vec()));
    assert_eq!(g.player_my_trailer, Some(b"_nameless.trailer.7".to_vec()));
    assert_eq!(g.skills.adr, Some(3));
    assert_eq!(g.skills.long_dist, Some(2));
    assert_eq!(g.skills.heavy, Some(1));
    assert_eq!(g.skills.fragile, Some(0));
    assert_eq!(g.skills.urgent, Some(5));
    assert_eq!(g.skills.mechanical, Some(4));
    let truck = g.truck.unwrap();
    assert_eq!(truck.brand, b"volvo".to_vec());
    assert_eq!(truck.model, b"fh16_2012".to_vec());
    assert_eq!(truck.license_plate, Some(b"ABC 123|de".to_vec()));
    assert_eq!(truck.odometer, Some(37619));
    assert_eq!(truck.trip_fuel_l, Some(1128));
    let trailer = g.trailer.unwrap();
    assert_eq!(trailer.trailer_id, b"_nameless.trailer.7".to_vec());
    assert_eq!(trailer.license_plate, Some(b"TR 77|de".to_vec()));
}

#[test]
fn overview_without_a_trailer() {
    let doc = SAVE.replace("my_trailer: _nameless.trailer.7", "my_trailer: null");
    let g = quicksave_game_info(doc.as_bytes()).unwrap();
    assert_eq!(g.player_my_trailer, None);
    assert!(g.trailer.is_none());
    assert!(g.truck.is_some());
    let doc = SAVE.replace("my_truck: _nameless.truck.1", "my_truck: _nameless.truck.9");
    let g = quicksave_game_info(doc.as_bytes()).unwrap();
    assert_eq!(g.player_my_truck, Some(b"_nameless.truck.9".to_vec()));
    assert!(g.truck.is_none());
}

#[test]
fn overview_needs_player_and_bank() {
    let no_player = SAVE.replace("player : _nameless.player {", "driver : _nameless.player {");
    assert_eq!(
        quicksave_game_info(no_player.as_bytes()).err(),
        Some(QuicksaveError::PlayerBlockMissing)
    );
    let no_bank = SAVE.replace("bank : _nameless.bank {", "safe : _nameless.bank {");
    assert_eq!(
        quicksave_game_info(no_bank.as_bytes()).err(),
        Some(QuicksaveError::BankBlockMissing)
    );
    assert_eq!(quicksave_game_info(b"").err(), Some(QuicksaveError::PlayerBlockMissing));
}

#[test]
fn the_players_truck() {
    let t = get_player_truck(SAVE.as_bytes()).unwrap();
    assert_eq!(t.truck_id, b"_nameless.truck.1".to_vec());
    assert_eq!(t.brand, b"volvo".to_vec());
    let none = SAVE.replace("my_truck: _nameless.truck.1", "my_truck: null");
    assert_eq!(get_player_truck(none.as_bytes()).err(), Some(VehicleError::NotAttached));
    let gone = SAVE.replace("my_truck: _nameless.truck.1", "my_truck: _nameless.truck.9");
    assert_eq!(get_player_truck(gone.as_bytes()).err(), Some(VehicleError::Unknown));
    assert_eq!(get_player_truck(b"").err(), Some(VehicleError::PlayerIdMissing));
    let other = SAVE.replace("player : _nameless.player {", "player : _nameless.other {");
    assert_eq!(get_player_truck(other.as_bytes()).err(), Some(VehicleError::PlayerBlockMissing));
}

#[test]
fn the_players_trailer_is_optional() {
    let t = get_player_trailer(SAVE.as_bytes()).unwrap().unwrap();
    assert_eq!(t.trailer_id, b"_nameless.trailer.7".to_vec());
    let none = SAVE.replace("my_trailer: _nameless.trailer.7", "my_trailer: null");
    assert!(get_player_trailer(none.as_bytes()).unwrap().is_none());
    let absent = SAVE.replace(" my_trailer: _nameless.trailer.7\n", "");
    assert!(get_player_trailer(absent.as_bytes()).unwrap().is_none());
    let gone = SAVE.replace("my_trailer: _nameless.trailer.7", "my_trailer: _nameless.trailer.9");
    assert_eq!(get_player_trailer(gone.as_bytes()).err(), Some(VehicleError::Unknown));
    let no_player = SAVE.replace(" player: _nameless.player\n", "");
    assert_eq!(get_player_trailer(no_player.as_bytes()).err(), Some(VehicleError::PlayerIdMissing));
    let other = SAVE.replace("player : _nameless.player {", "player : _nameless.other {");
    assert_eq!(get_player_trailer(other.as_bytes()).err(), Some(VehicleError::PlayerBlockMissing));
}

fn entry(key: &str, text: &str) -> Entry {
    Entry { key: key.to_string(), text: text.to_string() }
}

fn translator(saved: Option<&str>) -> Translator {
    Translator::new(
        vec![
            Language {
                code: "en".to_string(),
                entries: vec![entry("toasts.language_updated", "Language updated"), entry("ok", "OK")],
            },
            Language {
                code: "de".to_string(),
                entries: vec![entry("toasts.language_updated", "Sprache geändert")],
            },
        ],
        saved.map(|s| s.to_string()),
    )
}

#[test]
fn texts_are_shown_in_the_chosen_language() {
    let mut tr = translator(None);
    assert_eq!(get_current_language(&tr), "en");
    assert_eq!(t(&tr, "toasts.language_updated"), "Language updated");
    assert_eq!(t(&tr, "missing.key"), "missing.key");
    assert_eq!(set_language(&mut tr, "de"), Ok(()));
    assert_eq!(get_current_language(&tr), "de");
    assert_eq!(t(&tr, "toasts.language_updated"), "Sprache geändert");
    assert_eq!(t(&tr, "ok"), "ok");
    assert_eq!(set_language(&mut tr, "fr"), Err(TranslateError::NotAvailable));
    assert_eq!(get_current_language(&tr), "de");
    assert_eq!(get_available_languages(&tr), vec!["en".to_string(), "de".to_string()]);
}

#[test]
fn saved_language_is_taken_if_it_is_loaded() {
    assert_eq!(get_current_language(&translator(Some("de"))), "de");
    assert_eq!(get_current_language(&translator(Some("it"))), "en");
    let mut empty = Translator::new(Vec::new(), None);
    assert_eq!(t(&empty, "a.b"), "a.b");
    assert_eq!(empty.set_language("en"), Err(TranslateError::NotAvailable));
    assert_eq!(empty.translate("x"), "x");
    assert!(empty.get_available_languages().is_empty());
    assert_eq!(empty.get_current_language(), "en");
}

#[test]
fn languages_are_named() {
    for (code, name) in [
        ("en", "English"),
        ("de", "Deutsch"),
        ("es", "Español"),
        ("fr", "Français"),
        ("it", "Italiano"),
        ("pl", "pl"),
    ] {
        let info = language_info(code.to_string());
        assert_eq!(info.code, code);
        assert_eq!(info.name, name);
    }
}
