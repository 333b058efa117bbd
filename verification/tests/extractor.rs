use ets2_tool::extract::{
    extract_array, extract_combined_float, extract_f32, extract_i64, extract_number, extract_raw,
    extract_ref_array, extract_string, extract_string_array,
};
use ets2_tool::hex_float::FloatRepr;

fn float_of(r: &FloatRepr) -> f32 {
    match r {
        FloatRepr::Bits(b) => f32::from_bits(*b),
        FloatRepr::Decimal(t) => std::str::from_utf8(t).unwrap().parse::<f32>().unwrap(),
    }
}

const BLOCK: &[u8] = b"
 odometer: 37619
 odometer_float_part: &3f0388f8
 fuel_relative: &3f4ccccd
 license_plate: \"ABC 123|de\"
 empty: \"\"
 trip_fuel_l: 1128
 trip_fuel: &3d8fa681
 big: 99999999999999999999
 ratio : 0.25
 bad: 1.2.3
 wheels_wear[0]: &00000000
 wheels_wear[1]: &3f000000
 accessories[0]: _nameless.1
 accessories[1]: _nameless.2
 names[0]: \"a\"
 names[1]: \"b c\"
";

#[test]
fn array_extraction_yields_floats_in_index_order() {
    let block = b"wheels_wear[0]: &00000000\nwheels_wear[1]: &3f000000";
    let got: Vec<f32> = extract_array(block, b"wheels_wear").iter().map(float_of).collect();
    assert_eq!(got, vec![0.0, 0.5]);
}

#[test]
fn array_extraction_orders_by_index_and_tolerates_gaps() {
    let block = b"w[7]: 7\nw[2]: 2\nw[10]: 10\nw[2]: 22\nw[0]: &3f800000\nw[x]: 5\nw[3]: oops\n";
    let got: Vec<f32> = extract_array(block, b"w").iter().map(float_of).collect();
    assert_eq!(got, vec![1.0, 2.0, 22.0, 7.0, 10.0]);
}

#[test]
fn array_extraction_of_a_missing_key_is_empty() {
    assert!(extract_array(BLOCK, b"tyres").is_empty());
    assert!(extract_string_array(BLOCK, b"tyres").is_empty());
    assert!(extract_array(b"", b"w").is_empty());
}

#[test]
fn array_index_larger_than_the_machine_word_sorts_last() {
    let block = b"w[99999999999999999999999]: 1\nw[5]: 2\n";
    let got: Vec<f32> = extract_array(block, b"w").iter().map(float_of).collect();
    assert_eq!(got, vec![2.0, 1.0]);
}

#[test]
fn string_extraction_drops_the_quotes() {
    assert_eq!(extract_string(BLOCK, b"license_plate"), Some(b"ABC 123|de".to_vec()));
    assert_eq!(extract_string(BLOCK, b"empty"), Some(Vec::new()));
    assert_eq!(extract_string(BLOCK, b"odometer"), None);
    assert_eq!(extract_string(BLOCK, b"missing"), None);
    assert_eq!(extract_string(b"k: \"open", b"k"), None);
}

#[test]
fn string_extraction_skips_a_key_without_a_string() {
    assert_eq!(extract_string(b"k: 1\nk: \"x\"", b"k"), Some(b"x".to_vec()));
}

#[test]
fn integer_extraction() {
    assert_eq!(extract_i64(BLOCK, b"odometer"), Some(37619));
    assert_eq!(extract_i64(BLOCK, b"trip_fuel_l"), Some(1128));
    assert_eq!(extract_i64(BLOCK, b"big"), None);
    assert_eq!(extract_i64(BLOCK, b"license_plate"), None);
    assert_eq!(extract_i64(b"n: 9223372036854775807", b"n"), Some(i64::MAX));
    assert_eq!(extract_i64(b"n: 9223372036854775808", b"n"), None);
    assert_eq!(extract_i64(b"n: 007", b"n"), Some(7));
    assert_eq!(extract_i64(b"n :\t12abc", b"n"), Some(12));
}

#[test]
fn decimal_extraction_gives_the_text_of_a_float() {
    let t = extract_f32(BLOCK, b"ratio").unwrap();
    assert_eq!(std::str::from_utf8(&t).unwrap().parse::<f32>().unwrap(), 0.25);
    assert_eq!(extract_f32(BLOCK, b"odometer"), Some(b"37619".to_vec()));
    assert_eq!(extract_f32(BLOCK, b"bad"), None);
    assert_eq!(extract_f32(BLOCK, b"fuel_relative"), None);
    assert_eq!(extract_f32(b"x: -1.5", b"x"), Some(b"-1.5".to_vec()));
}

#[test]
fn raw_hex_extraction() {
    assert_eq!(extract_raw(BLOCK, b"fuel_relative"), Some(b"3f4ccccd".to_vec()));
    assert_eq!(extract_raw(BLOCK, b"odometer"), None);
    assert_eq!(extract_raw(b"k: &", b"k"), None);
}

#[test]
fn number_extraction_takes_hex_or_decimal() {
    assert_eq!(extract_number(BLOCK, b"fuel_relative").as_ref().map(float_of), Some(0.8));
    assert_eq!(extract_number(BLOCK, b"ratio").as_ref().map(float_of), Some(0.25));
    assert_eq!(extract_number(BLOCK, b"bad"), None);
    assert_eq!(extract_number(BLOCK, b"license_plate"), None);
}

#[test]
fn combined_float_sums_the_two_parts() {
    let c = extract_combined_float(BLOCK, b"odometer");
    let base: f32 = std::str::from_utf8(c.base.as_ref().unwrap()).unwrap().parse().unwrap();
    let part = f32::from_bits(c.part.unwrap());
    assert_eq!(base, 37619.0);
    assert_eq!(part, f32::from_bits(0x3f0388f8));
    assert_eq!(base + part, 37619.0 + f32::from_bits(0x3f0388f8));

    let missing = extract_combined_float(BLOCK, b"nothing");
    assert_eq!(missing.base, None);
    assert_eq!(missing.part, None);

    let only_base = extract_combined_float(BLOCK, b"trip_fuel_l");
    assert_eq!(only_base.base, Some(b"1128".to_vec()));
    assert_eq!(only_base.part, None);
}

#[test]
fn key_at_the_end_of_a_longer_key_is_not_read() {
    let block = b" integrity_odometer: 5\n odometer: 100\n";
    assert_eq!(extract_i64(block, b"odometer"), Some(100));
    assert_eq!(extract_i64(block, b"integrity_odometer"), Some(5));
    assert_eq!(extract_i64(b" xodometer: 5\n", b"odometer"), None);
    assert_eq!(extract_i64(b" 9odometer: 5\n", b"odometer"), None);
    assert_eq!(extract_i64(b" _odometer: 5\n", b"odometer"), None);
    assert_eq!(extract_i64(b"odometer: 5", b"odometer"), Some(5));
    assert_eq!(extract_i64(b"{odometer: 5", b"odometer"), Some(5));
    let c = extract_combined_float(b" xodometer: 5\n xodometer_float_part: &3f000000\n", b"odometer");
    assert_eq!(c.base, None);
    assert_eq!(c.part, None);
    assert_eq!(extract_string(b" my_name: \"a\"\n name: \"b\"\n", b"name"), Some(b"b".to_vec()));
    assert_eq!(
        extract_string_array(b" xs[0]: \"a\"\n s[0]: \"b\"\n", b"s"),
        vec![b"b".to_vec()]
    );
}

#[test]
fn string_and_reference_arrays() {
    assert_eq!(
        extract_string_array(BLOCK, b"names"),
        vec![b"a".to_vec(), b"b c".to_vec()]
    );
    assert_eq!(
        extract_ref_array(BLOCK, b"accessories"),
        vec![b"_nameless.1".to_vec(), b"_nameless.2".to_vec()]
    );
}
