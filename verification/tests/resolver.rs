use ets2_tool::resolve::{
    get_player_id, get_player_vehicle_id, get_vehicle_ids, resolve_player_vehicles, ResolverError,
};

const SAVE: &[u8] = b"SiiNunit
{
economy : _nameless.eco {
 bank: _nameless.bank
 player: _nameless.player
 companies: 2
}

player : _nameless.player {
 hq_city: berlin
 my_truck: _nameless.truck.1
 my_trailer: _nameless.trailer.7
}
}
";

fn with_trailer(word: &str) -> Vec<u8> {
    String::from_utf8(SAVE.to_vec())
        .unwrap()
        .replace("_nameless.trailer.7", word)
        .into_bytes()
}

#[test]
fn player_id_is_read_from_the_economy_unit() {
    assert_eq!(get_player_id(SAVE), Some(b"_nameless.player".to_vec()));
}

#[test]
fn player_line_outside_the_economy_unit_is_not_the_reference() {
    let doc = b"player: stray\neconomy : e {\n}\nplayer: late\n";
    assert_eq!(get_player_id(doc), None);
    let doc = b"other : o {\n player: x\n}\neconomy : e {\n\tplayer:   p1  \r\n}\n";
    assert_eq!(get_player_id(doc), Some(b"p1".to_vec()));
}

#[test]
fn economy_unit_without_a_player_gives_none() {
    assert_eq!(get_player_id(b"economy : e {\n bank: b\n the_player: p\n}\n"), None);
    assert_eq!(get_player_id(b"economy : e {\n player: \n}\n"), None);
    assert_eq!(get_player_id(b""), None);
    assert_eq!(get_player_id(b"economy : e {"), None);
    assert_eq!(get_player_id(b"my_economy : e {\n player: p\n}\n"), None);
}

#[test]
fn economy_unit_is_bounded_by_counted_braces() {
    let doc = b"economy : e {\n stats {\n  a: 1\n }\n player: p7\n}\n";
    assert_eq!(get_player_id(doc), Some(b"p7".to_vec()));
    let doc = b"economy:e{player:p7}";
    assert_eq!(get_player_id(doc), Some(b"p7".to_vec()));
}

#[test]
fn player_unit_is_bounded_by_counted_braces() {
    let doc = b"economy : e {\n player: p1\n}\nplayer : p1 {\n sub {\n  x: 1\n }\n my_truck: t1\n my_trailer: t2\n}\n";
    assert_eq!(resolve_player_vehicles(doc), Ok((Some(b"t1".to_vec()), Some(b"t2".to_vec()))));
}

#[test]
fn whitespace_in_the_opening_of_the_player_unit_is_free() {
    let doc = b"economy : e {\n player: p1\n}\nplayer :  p1\t{\n my_truck: t1\n}\n";
    assert_eq!(resolve_player_vehicles(doc), Ok((Some(b"t1".to_vec()), None)));
    let doc = b"economy : e {\n player: p1\n}\nplayer:p1{my_truck:t1 }";
    assert_eq!(resolve_player_vehicles(doc), Ok((Some(b"t1".to_vec()), None)));
}

#[test]
fn player_id_is_matched_whole() {
    let doc = b"economy : e {\n player: p1\n}\nplayer : p10 {\n my_truck: wrong\n}\nplayer : p1 {\n my_truck: right\n}\n";
    assert_eq!(resolve_player_vehicles(doc), Ok((Some(b"right".to_vec()), None)));
    let doc = b"economy : e {\n player: p1\n}\nplayer : p10 {\n my_truck: wrong\n}\n";
    assert_eq!(resolve_player_vehicles(doc), Err(ResolverError::PlayerBlockMissing));
    assert_eq!(get_vehicle_ids(doc, b"p1"), (None, None));
}

#[test]
fn reference_inside_a_longer_key_is_no_reference() {
    let doc = b"economy : e {\n player: p1\n}\nplayer : p1 {\n old_my_truck: t0\n my_truck: t1\n not_my_trailer: t2\n}\n";
    assert_eq!(resolve_player_vehicles(doc), Ok((Some(b"t1".to_vec()), None)));
}

#[test]
fn vehicle_ids_of_the_player() {
    assert_eq!(
        get_vehicle_ids(SAVE, b"_nameless.player"),
        (Some(b"_nameless.truck.1".to_vec()), Some(b"_nameless.trailer.7".to_vec()))
    );
    assert_eq!(get_vehicle_ids(SAVE, b"_nameless.other"), (None, None));
}

#[test]
fn null_trailer_is_no_trailer() {
    let doc = with_trailer("null");
    assert_eq!(
        resolve_player_vehicles(&doc),
        Ok((Some(b"_nameless.truck.1".to_vec()), None))
    );
    assert_eq!(get_vehicle_ids(&doc, b"_nameless.player").1, None);
}

#[test]
fn missing_player_is_a_resolver_error() {
    let doc = b"SiiNunit\n{\neconomy : e {\n bank: b\n}\nvehicle : v {\n}\n}\n";
    assert_eq!(resolve_player_vehicles(doc), Err(ResolverError::PlayerIdMissing));
    let doc = b"SiiNunit\n{\neconomy : e {\n player: p\n}\n}\n";
    assert_eq!(resolve_player_vehicles(doc), Err(ResolverError::PlayerBlockMissing));
    assert_eq!(resolve_player_vehicles(b""), Err(ResolverError::PlayerIdMissing));
}

#[test]
fn first_reference_of_the_unit_is_read() {
    let doc = b"my_truck: z\neconomy : e {\n player: p\n}\nplayer : p {\n my_truck: a\n my_truck: b\n}\n my_truck: c\n";
    assert_eq!(resolve_player_vehicles(doc), Ok((Some(b"a".to_vec()), None)));
}

#[test]
fn player_vehicle_id_asks_for_the_vehicle() {
    assert_eq!(get_player_vehicle_id(SAVE, b"my_truck"), Ok(b"_nameless.truck.1".to_vec()));
    assert_eq!(get_player_vehicle_id(SAVE, b"my_trailer"), Ok(b"_nameless.trailer.7".to_vec()));
    assert_eq!(
        get_player_vehicle_id(&with_trailer("null"), b"my_trailer"),
        Err(ResolverError::NotAttached)
    );
    assert_eq!(get_player_vehicle_id(SAVE, b"my_boat"), Err(ResolverError::NotAttached));
    assert_eq!(get_player_vehicle_id(b"x", b"my_truck"), Err(ResolverError::PlayerBlockMissing));
}

#[test]
fn player_vehicle_id_asks_for_no_economy_unit() {
    let doc = b"player : p1 {\n my_truck: v1\n my_trailer: null\n}\nvehicle : v1 {\n}\n";
    assert_eq!(get_player_vehicle_id(doc, b"my_truck"), Ok(b"v1".to_vec()));
    assert_eq!(get_player_vehicle_id(doc, b"my_trailer"), Err(ResolverError::NotAttached));
    // A reader does ask for it.
    assert_eq!(resolve_player_vehicles(doc), Err(ResolverError::PlayerIdMissing));
    // The first player unit is the one, and it is bounded by counted braces.
    let doc = b"the_player : p0 { my_truck: v0 }\nplayer:p1{ sub { } my_truck: v1 }\nplayer : p2 { my_truck: v2 }";
    assert_eq!(get_player_vehicle_id(doc, b"my_truck"), Ok(b"v1".to_vec()));
    assert_eq!(
        get_player_vehicle_id(b"economy : e { player: p }", b"my_truck"),
        Err(ResolverError::PlayerBlockMissing)
    );
}
