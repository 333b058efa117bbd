use ets2_tool::edit::EditError;
use ets2_tool::hex_float::FloatRepr;
use ets2_tool::locate::NotFound;
use ets2_tool::resolve::ResolverError;
use ets2_tool::units::{parse_units_of_class, split_data_path};
use ets2_tool::vehicle_editor::{
    edit_truck_odometer, generic_vehicle_attribute_edit, i64_to_decimal, refuel_player_truck,
    repair_player_trailer, repair_player_truck, repair_unit, set_player_trailer_cargo_mass,
    set_player_trailer_license_plate, set_player_truck_fuel, set_player_truck_license_plate,
    set_player_truck_wear, CommandError,
};
use ets2_tool::vehicles::{
    find_trailer_def, find_truck, parse_trailer_defs_from_sii, parse_trailers_from_sii,
    parse_trucks_from_sii, resolve_driven, Driven,
};

const SAVE: &str = "SiiNunit
{
economy : _nameless.eco {
 player: _nameless.player
}

player : _nameless.player {
 my_truck: _nameless.truck.1
 my_trailer: _nameless.trailer.7
}

vehicle : _nameless.truck.0 {
 odometer: 10
 accessories: 1
 accessories[0]: _nameless.acc.9
 license_plate: \"OLD 1|uk\"
}

vehicle : _nameless.truck.1 {
 engine_wear: &3dcccccd
 transmission_wear: &3e4ccccd
 cabin_wear: 0
 chassis_wear: &3f000000
 engine_wear_unfixable: &3c23d70a
 wheels_wear: 2
 wheels_wear[0]: &3e800000
 wheels_wear[1]: &3f000000
 wheels_wear_unfixable: 0
 fuel_relative: &3f000000
 odometer: 37619
 odometer_float_part: &3f0388f8
 trip_fuel_l: 1128
 trip_fuel: &3d8fa681
 license_plate: \"ABC 123|de\"
 assigned_garage: \"berlin\"
 accessories: 2
 accessories[0]: _nameless.acc.1
 accessories[1]: _nameless.acc.2
 sub : nested {
  inner: 1
 }
}

vehicle_accessory : _nameless.acc.1 {
 data_path: \"/def/wheel.sii\"
}

vehicle_accessory : _nameless.acc.2 {
 data_path: \"/def/vehicle/truck/volvo.fh16_2012/data.sii\"
}

vehicle_accessory : _nameless.acc.9 {
 data_path: \"/def/vehicle/truck/scania/data.sii\"
}

trailer : _nameless.trailer.7 {
 trailer_definition: _nameless.def.3
 cargo_mass: &461c4000
 cargo_damage: 0
 trailer_body_wear: &3dcccccd
 chassis_wear: &3e4ccccd
 wheels_wear: 2
 wheels_wear[0]: &3e800000
 wheels_wear[1]: &3f000000
 license_plate: \"TR 77|de\"
 odometer: 120
}

trailer_def : _nameless.def.3 {
 gross_trailer_weight_limit: 40000
 chassis_mass: 5000
 body_mass: &44fa0000
 body_type: \"curtainside\"
 length: &41580000
}
}
";

fn float_of(r: &FloatRepr) -> f32 {
    match r {
        FloatRepr::Bits(b) => f32::from_bits(*b),
        FloatRepr::Decimal(t) => std::str::from_utf8(t).unwrap().parse::<f32>().unwrap(),
    }
}

fn text(r: Result<Vec<u8>, CommandError>) -> String {
    String::from_utf8(r.unwrap()).unwrap()
}

#[test]
fn units_of_a_class_with_brand_and_model() {
    let doc = SAVE.as_bytes();
    let recs = parse_units_of_class(doc, b"vehicle");
    assert_eq!(recs.len(), 2);
    assert_eq!(recs[0].unit_id, b"_nameless.truck.0".to_vec());
    assert_eq!(recs[0].brand, b"scania".to_vec());
    assert_eq!(recs[0].model, Vec::<u8>::new());
    assert_eq!(recs[1].unit_id, b"_nameless.truck.1".to_vec());
    assert_eq!(recs[1].brand, b"volvo".to_vec());
    assert_eq!(recs[1].model, b"fh16_2012".to_vec());
    let whole = &doc[recs[1].start..recs[1].end];
    assert!(whole.starts_with(b"vehicle : _nameless.truck.1 {"));
    assert!(whole.ends_with(b" sub : nested {\n  inner: 1\n }\n}"));
    assert_eq!(doc[recs[1].body_start - 1], b'{');
    assert_eq!(doc[recs[1].body_end], b'}');
    assert_eq!(recs[1].body_end + 1, recs[1].end);
    assert_eq!(parse_units_of_class(doc, b"vehicle_accessory").len(), 3);
    assert!(parse_units_of_class(doc, b"garage").is_empty());
}

#[test]
fn data_path_names_brand_and_model_in_its_fifth_segment() {
    assert_eq!(
        split_data_path(b"/def/vehicle/truck/volvo.fh16.2012/data.sii"),
        Some((b"volvo".to_vec(), b"fh16.2012".to_vec()))
    );
    assert_eq!(split_data_path(b"/def/vehicle/truck/daf"), Some((b"daf".to_vec(), Vec::new())));
    assert_eq!(split_data_path(b"a/b/c/d/"), Some((Vec::new(), Vec::new())));
    assert_eq!(split_data_path(b"/def/vehicle/truck"), None);
    assert_eq!(split_data_path(b""), None);
}

#[test]
fn trucks_are_read_with_their_numbers() {
    let trucks = parse_trucks_from_sii(SAVE.as_bytes());
    assert_eq!(trucks.len(), 2);
    let t = &trucks[1];
    assert_eq!(t.truck_id, b"_nameless.truck.1".to_vec());
    assert_eq!(t.brand, b"volvo".to_vec());
    assert_eq!(t.engine_wear.as_ref().map(float_of), Some(0.1));
    assert_eq!(t.cabin_wear.as_ref().map(float_of), Some(0.0));
    assert_eq!(t.chassis_wear.as_ref().map(float_of), Some(0.5));
    assert_eq!(t.engine_wear_unfixable.as_ref().map(float_of), Some(0.01));
    assert_eq!(t.cabin_wear_unfixable, None);
    assert_eq!(t.wheels_wear.iter().map(float_of).collect::<Vec<_>>(), vec![0.25, 0.5]);
    assert!(t.wheels_wear_unfixable.is_empty());
    assert_eq!(t.odometer.base, Some(b"37619".to_vec()));
    assert_eq!(t.odometer.part, Some(0x3f0388f8));
    assert_eq!(t.trip_fuel_l.whole, Some(b"1128".to_vec()));
    assert_eq!(t.trip_fuel_l.rest, Some(FloatRepr::Bits(0x3d8fa681)));
    assert_eq!(t.license_plate, Some(b"ABC 123|de".to_vec()));
    assert_eq!(t.assigned_garage, Some(b"berlin".to_vec()));
    assert_eq!(trucks[0].license_plate, Some(b"OLD 1|uk".to_vec()));
}

#[test]
fn trailers_and_their_definitions() {
    let doc = SAVE.as_bytes();
    let trailers = parse_trailers_from_sii(doc);
    assert_eq!(trailers.len(), 1);
    let t = &trailers[0];
    assert_eq!(t.trailer_id, b"_nameless.trailer.7".to_vec());
    assert_eq!(t.trailer_definition, b"_nameless.def.3".to_vec());
    assert_eq!(t.cargo_mass.as_ref().map(float_of), Some(10000.0));
    assert_eq!(t.body_wear.as_ref().map(float_of), Some(0.1));
    assert_eq!(t.license_plate, Some(b"TR 77|de".to_vec()));
    assert_eq!(t.brand, None);
    let defs = parse_trailer_defs_from_sii(doc);
    assert_eq!(defs.len(), 1);
    assert_eq!(defs[0].body_mass.as_ref().map(float_of), Some(2000.0));
    assert_eq!(defs[0].length.as_ref().map(float_of), Some(13.5));
    assert_eq!(defs[0].body_type, Some(b"curtainside".to_vec()));
    assert_eq!(find_trailer_def(&defs, &t.trailer_definition), Some(0));
    assert_eq!(find_trailer_def(&defs, b"nope"), None);
}

#[test]
fn the_players_vehicles_are_found_among_those_read() {
    let doc = SAVE.as_bytes();
    let trucks = parse_trucks_from_sii(doc);
    let trailers = parse_trailers_from_sii(doc);
    assert_eq!(resolve_driven(doc, &trucks, &trailers), Ok((Driven::At(1), Driven::At(0))));
    assert_eq!(find_truck(&trucks, b" _NAMELESS.Truck.0 "), Some(0));

    let no_trailer = SAVE.replace("my_trailer: _nameless.trailer.7", "my_trailer: null");
    let doc = no_trailer.as_bytes();
    assert_eq!(
        resolve_driven(doc, &parse_trucks_from_sii(doc), &parse_trailers_from_sii(doc)),
        Ok((Driven::At(1), Driven::Nothing))
    );

    let gone = SAVE.replace("my_truck: _nameless.truck.1", "my_truck: _nameless.truck.5");
    let doc = gone.as_bytes();
    assert_eq!(
        resolve_driven(doc, &parse_trucks_from_sii(doc), &parse_trailers_from_sii(doc)),
        Ok((Driven::Unknown, Driven::At(0)))
    );
    assert_eq!(resolve_driven(b"", &Vec::new(), &Vec::new()), Err(ResolverError::PlayerIdMissing));
}

#[test]
fn plate_keeps_quotes_and_country() {
    let out = text(set_player_truck_license_plate(SAVE.as_bytes(), b"NEW 9"));
    assert_eq!(out, SAVE.replace("\"ABC 123|de\"", "\"NEW 9|de\""));
    let out = text(set_player_trailer_license_plate(SAVE.as_bytes(), b"T 1"));
    assert_eq!(out, SAVE.replace("\"TR 77|de\"", "\"T 1|de\""));
    let plain = SAVE.replace("\"ABC 123|de\"", "\"ABC 123\"");
    let out = text(set_player_truck_license_plate(plain.as_bytes(), b"NEW 9"));
    assert_eq!(out, plain.replace("\"ABC 123\"", "\"NEW 9\""));
}

#[test]
fn fuel_wear_mass_and_odometer() {
    let doc = SAVE.as_bytes();
    assert_eq!(
        text(refuel_player_truck(doc)),
        SAVE.replace("fuel_relative: &3f000000", "fuel_relative: &3f800000")
    );
    assert_eq!(
        text(set_player_truck_fuel(doc, 0.25f32.to_bits())),
        SAVE.replace("fuel_relative: &3f000000", "fuel_relative: &3e800000")
    );
    assert_eq!(
        text(set_player_truck_wear(doc, b"cabin_wear", 0.5f32.to_bits())),
        SAVE.replace("cabin_wear: 0", "cabin_wear: &3f000000")
    );
    assert_eq!(
        text(set_player_trailer_cargo_mass(doc, 1.0f32.to_bits())),
        SAVE.replace("cargo_mass: &461c4000", "cargo_mass: &3f800000")
    );
    assert_eq!(
        text(edit_truck_odometer(doc, 250)),
        SAVE.replace(" odometer: 37619\n", " odometer: 250\n")
    );
    assert_eq!(
        text(generic_vehicle_attribute_edit(doc, b"trailer", b"my_trailer", b"odometer", b"5")),
        SAVE.replace(" odometer: 120\n", " odometer: 5\n")
    );
}

#[test]
fn edit_of_the_player_vehicle_passes_by_longer_keys() {
    let with = SAVE.replace(" odometer: 37619\n", " xodometer: 5\n odometer: 7\n");
    assert_eq!(
        text(generic_vehicle_attribute_edit(with.as_bytes(), b"vehicle", b"my_truck", b"odometer", b"9")),
        with.replace(" odometer: 7\n", " odometer: 9\n")
    );
    let without = SAVE.replace(" odometer: 37619\n odometer_float_part: &3f0388f8\n", " xodometer: 5\n");
    assert_eq!(
        generic_vehicle_attribute_edit(without.as_bytes(), b"vehicle", b"my_truck", b"odometer", b"9"),
        Err(CommandError::Edit(EditError::FieldNotFound))
    );
}

#[test]
fn repair_passes_by_longer_keys() {
    let doc = SAVE
        .replace(" engine_wear: &3dcccccd\n", " old_engine_wear: &3f000000\n engine_wear: &3dcccccd\n")
        .replace(" wheels_wear: 2\n wheels_wear[0]: &3e800000\n", " wheels_wear: 2\n spare_wheels_wear[0]: &3f800000\n wheels_wear[0]: &3e800000\n");
    let out = text(repair_player_truck(doc.as_bytes()));
    assert!(out.contains(" old_engine_wear: &3f000000\n engine_wear: &00000000\n"));
    let out = text(repair_player_trailer(doc.as_bytes()));
    assert!(out.contains(" spare_wheels_wear[0]: &3f800000\n wheels_wear[0]: &00000000\n"));
    assert!(out.contains(" trailer_body_wear: &00000000\n"));
}

#[test]
fn repair_of_a_field_on_the_closing_line_leaves_the_brace() {
    let doc = b"economy : e { player: p }\nplayer : p { my_truck: t }\nvehicle : t { engine_wear: &3f000000}";
    assert_eq!(
        repair_player_truck(doc),
        Ok(b"economy : e { player: p }\nplayer : p { my_truck: t }\nvehicle : t { engine_wear: &00000000}".to_vec())
    );
}

#[test]
fn edit_of_the_player_vehicle_twice_is_the_edit_once() {
    for (key, value) in [(&b"odometer"[..], &b"250"[..]), (b"license_plate", b"NEW 1")] {
        let once =
            generic_vehicle_attribute_edit(SAVE.as_bytes(), b"vehicle", b"my_truck", key, value)
                .unwrap();
        assert_ne!(once, SAVE.as_bytes().to_vec());
        assert_eq!(
            generic_vehicle_attribute_edit(&once, b"vehicle", b"my_truck", key, value),
            Ok(once.clone())
        );
    }
}

#[test]
fn edit_of_a_vehicle_before_the_player_unit_twice_is_the_edit_once() {
    let doc = b"vehicle : t {\n odometer: 5\n license_plate: \"A 1|de\"\n}\nplayer : p {\n my_truck: t\n}\n";
    for (key, value) in [(&b"odometer"[..], &b"25000"[..]), (b"license_plate", b"NEW 12345")] {
        let once = generic_vehicle_attribute_edit(doc, b"vehicle", b"my_truck", key, value).unwrap();
        assert_ne!(once, doc.to_vec());
        assert_eq!(
            generic_vehicle_attribute_edit(&once, b"vehicle", b"my_truck", key, value),
            Ok(once.clone())
        );
    }
}

#[test]
fn edit_before_the_player_unit_can_be_read_as_its_opening() {
    // The vehicle stands before the player's unit, and the value that is
    // written makes the text of an opening of that unit.
    let doc = b"vehicle : t {\n player: x y\n { }\n}\nplayer : p { my_truck: t }";
    let once = generic_vehicle_attribute_edit(doc, b"vehicle", b"my_truck", b"player", b"p").unwrap();
    assert_eq!(
        once,
        b"vehicle : t {\n player: p\n { }\n}\nplayer : p { my_truck: t }".to_vec()
    );
    assert_eq!(
        generic_vehicle_attribute_edit(&once, b"vehicle", b"my_truck", b"player", b"p"),
        Err(CommandError::Resolve(ResolverError::NotAttached))
    );
}

#[test]
fn edits_of_the_player_vehicle_fail_as_they_should() {
    let doc = SAVE.as_bytes();
    assert_eq!(
        set_player_truck_wear(doc, b"paint_wear", 0),
        Err(CommandError::Edit(EditError::FieldNotFound))
    );
    let gone = SAVE.replace("my_truck: _nameless.truck.1", "my_truck: _nameless.truck.5");
    assert_eq!(
        refuel_player_truck(gone.as_bytes()),
        Err(CommandError::Edit(EditError::Block(NotFound::Missing)))
    );
    let none = SAVE.replace("my_trailer: _nameless.trailer.7", "my_trailer: null");
    assert_eq!(
        repair_player_trailer(none.as_bytes()),
        Err(CommandError::Resolve(ResolverError::NotAttached))
    );
    assert_eq!(
        repair_player_truck(b"nothing"),
        Err(CommandError::Resolve(ResolverError::PlayerBlockMissing))
    );
}

#[test]
fn edit_of_the_player_vehicle_asks_for_no_economy_unit() {
    let doc = b"player : p1 {\n my_truck: v1\n}\nvehicle : v1 { odometer: 100\n license_plate: \"ABC 123|de\" }";
    let want = b"player : p1 {\n my_truck: v1\n}\nvehicle : v1 { odometer: 250\n license_plate: \"ABC 123|de\" }";
    assert_eq!(
        generic_vehicle_attribute_edit(doc, b"vehicle", b"my_truck", b"odometer", b"250"),
        Ok(want.to_vec())
    );
    assert_eq!(edit_truck_odometer(doc, 250), Ok(want.to_vec()));

    let doc = b"player : p1 {\n my_truck: v2\n}\nvehicle : v1 {\n odometer: 1\n}\nvehicle : v2 {\n odometer: 2\n}";
    assert_eq!(
        generic_vehicle_attribute_edit(doc, b"vehicle", b"my_truck", b"odometer", b"9"),
        Ok(b"player : p1 {\n my_truck: v2\n}\nvehicle : v1 {\n odometer: 1\n}\nvehicle : v2 {\n odometer: 9\n}".to_vec())
    );

    let doc = b"player : p1 {\n my_truck: v1\n}\nvehicle : v1 {\n integrity_odometer: 5\n odometer: 100\n}";
    assert_eq!(
        generic_vehicle_attribute_edit(doc, b"vehicle", b"my_truck", b"odometer", b"250"),
        Ok(b"player : p1 {\n my_truck: v1\n}\nvehicle : v1 {\n integrity_odometer: 5\n odometer: 250\n}".to_vec())
    );

    let doc = b"player : p1 {\n my_truck: v1\n}\nvehicle : v1 {\n license_plate: \"ABC 123|de\"\n}";
    assert_eq!(
        set_player_truck_license_plate(doc, b"XY 9"),
        Ok(b"player : p1 {\n my_truck: v1\n}\nvehicle : v1 {\n license_plate: \"XY 9|de\"\n}".to_vec())
    );
}

#[test]
fn repair_asks_for_no_economy_unit() {
    let doc = "player : p1 {\n my_truck: v1\n my_trailer: t\n}\nvehicle : v1 {\n engine_wear: &3e000000\n transmission_wear: 0.5\n cabin_wear: &3e000000\n chassis_wear: &3e000000\n engine_wear_unfixable: &3c000000\n wheels_wear[0]: &3e000000\n wheels_wear[1]: &3e800000\n}\ntrailer : t {\n chassis_wear: &3e000000\n trailer_body_wear: &3e000000\n wheels_wear[0]: &3e000000\n wheels_wear[1]: &3e800000\n}\n";
    let (head, tail) = doc.split_at(doc.find("trailer : t").unwrap());
    let mended = |t: &str| {
        t.replace("wear: &3e000000", "wear: &00000000")
            .replace("wear: 0.5", "wear: &00000000")
            .replace("]: &3e000000", "]: &00000000")
            .replace("]: &3e800000", "]: &00000000")
    };
    let truck = text(repair_player_truck(doc.as_bytes()));
    assert_eq!(truck, format!("{}{}", mended(head), tail));
    assert!(truck.contains(" engine_wear_unfixable: &3c000000\n"));
    assert!(truck.contains(" wheels_wear[1]: &00000000\n}\ntrailer"));
    let trailer = text(repair_player_trailer(doc.as_bytes()));
    assert_eq!(trailer, format!("{}{}", head, mended(tail)));
    assert_eq!(text(repair_player_trailer(trailer.as_bytes())), trailer);
}

#[test]
fn repair_sets_every_wear_to_zero_and_nothing_else() {
    let out = text(repair_player_truck(SAVE.as_bytes()));
    let want = SAVE
        .replace(" engine_wear: &3dcccccd", " engine_wear: &00000000")
        .replace(" transmission_wear: &3e4ccccd", " transmission_wear: &00000000")
        .replace(" cabin_wear: 0", " cabin_wear: &00000000")
        .replacen(" chassis_wear: &3f000000", " chassis_wear: &00000000", 1)
        .replacen(" wheels_wear[0]: &3e800000", " wheels_wear[0]: &00000000", 1)
        .replacen(" wheels_wear[1]: &3f000000", " wheels_wear[1]: &00000000", 1);
    assert_eq!(out, want);

    let out = text(repair_player_trailer(SAVE.as_bytes()));
    let at = SAVE.find("trailer : _nameless.trailer.7").unwrap();
    let (head, tail) = SAVE.split_at(at);
    let want = format!(
        "{}{}",
        head,
        tail.replace("trailer_body_wear: &3dcccccd", "trailer_body_wear: &00000000")
            .replace("chassis_wear: &3e4ccccd", "chassis_wear: &00000000")
            .replace("wheels_wear[0]: &3e800000", "wheels_wear[0]: &00000000")
            .replace("wheels_wear[1]: &3f000000", "wheels_wear[1]: &00000000")
    );
    assert_eq!(out, want);
}

#[test]
fn repair_of_a_unit_passes_over_missing_keys() {
    let doc = b"vehicle : v { a_wear: 5 wheels_wear[3]: 0.5 x }";
    let keys = vec![b"b_wear".to_vec(), b"a_wear".to_vec()];
    assert_eq!(
        repair_unit(doc, b"vehicle", b"v", &keys),
        Ok(b"vehicle : v { a_wear: &00000000 wheels_wear[3]: &00000000 x }".to_vec())
    );
    assert_eq!(
        repair_unit(doc, b"vehicle", b"w", &keys),
        Err(EditError::Block(NotFound::Missing))
    );
}

#[test]
fn numbers_are_written_in_decimal() {
    assert_eq!(i64_to_decimal(0), b"0".to_vec());
    assert_eq!(i64_to_decimal(250), b"250".to_vec());
    assert_eq!(i64_to_decimal(-7), b"-7".to_vec());
    assert_eq!(i64_to_decimal(i64::MAX), i64::MAX.to_string().into_bytes());
    assert_eq!(i64_to_decimal(i64::MIN), i64::MIN.to_string().into_bytes());
}
