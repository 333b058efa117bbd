use ets2_tool::edit::{edit_field, EditError};
use ets2_tool::locate::{locate_block, NotFound};

#[test]
fn edit_odometer_leaves_plate_untouched() {
    let doc = b"vehicle : v1 { odometer: 100\n license_plate: \"ABC 123|de\" }";
    let out = edit_field(doc, b"vehicle", b"v1", b"odometer", b"250").unwrap();
    assert_eq!(
        out,
        b"vehicle : v1 { odometer: 250\n license_plate: \"ABC 123|de\" }".to_vec()
    );
}

#[test]
fn locate_counts_nested_braces() {
    let doc = b"x\nvehicle : v1 {\n a: 1\n sub { b: 2 }\n c: 3\n}\ntrailer : t { }";
    let (s, e) = locate_block(doc, b"vehicle", b"v1").unwrap();
    assert_eq!(s, 2);
    assert_eq!(&doc[s..e], &b"vehicle : v1 {\n a: 1\n sub { b: 2 }\n c: 3\n}"[..]);
}

#[test]
fn locate_reports_missing_and_unbalanced() {
    assert_eq!(locate_block(b"vehicle : v2 { }", b"vehicle", b"v1"), Err(NotFound::Missing));
    assert_eq!(locate_block(b"vehicle : v1 { a { }", b"vehicle", b"v1"), Err(NotFound::Unbalanced));
}

#[test]
fn edit_missing_field_is_an_error() {
    let doc = b"vehicle : v1 {\n odometer: 100\n}";
    assert_eq!(edit_field(doc, b"vehicle", b"v1", b"fuel", b"1"), Err(EditError::FieldNotFound));
    assert_eq!(
        edit_field(doc, b"vehicle", b"v9", b"odometer", b"1"),
        Err(EditError::Block(NotFound::Missing))
    );
}

#[test]
fn edit_changes_one_contiguous_stretch() {
    let doc = b"a : x { odometer: 1 }\nvehicle : v1 {\n fuel: 5\n odometer: 100\r\n sub { odometer: 7 }\n}\nvehicle : v2 {\n odometer: 100\n}\n";
    let out = edit_field(doc, b"vehicle", b"v1", b"odometer", b"2500").unwrap();
    let at = std::str::from_utf8(doc).unwrap().find(" odometer: 100\r").unwrap() + " odometer: ".len();
    assert_eq!(&out[..at], &doc[..at]);
    assert_eq!(&out[at..at + 4], b"2500");
    assert_eq!(&out[at + 4..], &doc[at + 3..]);
}

#[test]
fn edit_twice_is_edit_once() {
    let doc = b"vehicle : v1 {\n odometer: 100\n license_plate: \"ABC 123|de\"\n name: \"x\"\n}\n";
    for (key, value) in [
        (&b"odometer"[..], &b"250"[..]),
        (b"license_plate", b"NEW 1"),
        (b"license_plate", b""),
        (b"license_plate", b"X|Y"),
        (b"name", b"y z"),
        (b"name", b" say hi | bye "),
        (b"name", b""),
    ] {
        let once = edit_field(doc, b"vehicle", b"v1", key, value).unwrap();
        let twice = edit_field(&once, b"vehicle", b"v1", key, value).unwrap();
        assert_eq!(once, twice);
    }
}

#[test]
fn edit_of_a_field_on_the_closing_line_leaves_the_brace() {
    let doc = b"vehicle : v1 { odometer: 100 }";
    let once = edit_field(doc, b"vehicle", b"v1", b"odometer", b"250").unwrap();
    assert_eq!(once, b"vehicle : v1 { odometer: 250 }".to_vec());
    assert_eq!(edit_field(&once, b"vehicle", b"v1", b"odometer", b"250"), Ok(once.clone()));
    assert_eq!(
        edit_field(b"vehicle : v1 { odometer: 100}", b"vehicle", b"v1", b"odometer", b"7"),
        Ok(b"vehicle : v1 { odometer: 7}".to_vec())
    );
}

#[test]
fn plate_on_the_closing_line_keeps_its_frame() {
    let doc = b"vehicle : v1 { odometer: 100\n license_plate: \"ABC 123|de\" }";
    let once = edit_field(doc, b"vehicle", b"v1", b"license_plate", b"NEW").unwrap();
    assert_eq!(once, b"vehicle : v1 { odometer: 100\n license_plate: \"NEW|de\" }".to_vec());
    assert_eq!(edit_field(&once, b"vehicle", b"v1", b"license_plate", b"NEW"), Ok(once.clone()));
}

#[test]
fn value_ends_before_the_blanks_at_the_end_of_its_line() {
    let doc = b"vehicle : v1 {\n odometer: 100 \t\r\n name: \"a  b\" \n}";
    assert_eq!(
        edit_field(doc, b"vehicle", b"v1", b"odometer", b"5"),
        Ok(b"vehicle : v1 {\n odometer: 5 \t\r\n name: \"a  b\" \n}".to_vec())
    );
    assert_eq!(
        edit_field(doc, b"vehicle", b"v1", b"name", b"c"),
        Ok(b"vehicle : v1 {\n odometer: 100 \t\r\n name: \"c\" \n}".to_vec())
    );
}

#[test]
fn key_inside_a_longer_key_is_no_field() {
    let doc = b"v : a {\n xk: 1\n k: 2\n}";
    assert_eq!(edit_field(doc, b"v", b"a", b"k", b"9"), Ok(b"v : a {\n xk: 1\n k: 9\n}".to_vec()));
    let doc = b"v : a {\n xk: 1\n _k: 2\n 0k: 3\n}";
    assert_eq!(edit_field(doc, b"v", b"a", b"k", b"9"), Err(EditError::FieldNotFound));
    let doc = b"v : a {\n x.k: 1\n}";
    assert_eq!(edit_field(doc, b"v", b"a", b"k", b"9"), Ok(b"v : a {\n x.k: 9\n}".to_vec()));
}

#[test]
fn class_inside_a_longer_class_opens_no_unit() {
    let doc = b"player_job : x {\n a: 1\n}\njob : x {\n a: 2\n}";
    let (s, e) = locate_block(doc, b"job", b"x").unwrap();
    assert_eq!(&doc[s..e], b"job : x {\n a: 2\n}");
    assert_eq!(locate_block(b"player_job : x { }", b"job", b"x"), Err(NotFound::Missing));
    assert_eq!(
        edit_field(doc, b"job", b"x", b"a", b"3"),
        Ok(b"player_job : x {\n a: 1\n}\njob : x {\n a: 3\n}".to_vec())
    );
}

#[test]
fn edit_keeps_the_frame_of_a_quoted_value() {
    let doc = b"trailer : t {\n license_plate: \"TR 77|de\"\n body_type: \"box\"\n plain_plate: \"P|x\"\n}";
    let out = edit_field(doc, b"trailer", b"t", b"license_plate", b"T 1").unwrap();
    assert!(String::from_utf8(out).unwrap().contains(" license_plate: \"T 1|de\"\n"));
    let out = edit_field(doc, b"trailer", b"t", b"body_type", b"tank").unwrap();
    assert!(String::from_utf8(out).unwrap().contains(" body_type: \"tank\"\n"));
    let out = edit_field(doc, b"trailer", b"t", b"plain_plate", b"Q").unwrap();
    assert!(String::from_utf8(out).unwrap().contains(" plain_plate: \"Q\"\n"));
}

#[test]
fn whitespace_around_the_colon_is_free() {
    let doc = b"vehicle:v1{\n odometer :\t100\n}";
    assert_eq!(locate_block(doc, b"vehicle", b"v1"), Ok((0, doc.len())));
    assert_eq!(
        edit_field(doc, b"vehicle", b"v1", b"odometer", b"5"),
        Ok(b"vehicle:v1{\n odometer :\t5\n}".to_vec())
    );
}

#[test]
fn locate_takes_the_first_opening_of_that_class_and_id() {
    let doc = b"vehicle : v10 { }\nmy_vehicle : v1 { a }\nvehicle : v1 { b }\nvehicle : v1 { c }";
    let (s, e) = locate_block(doc, b"vehicle", b"v1").unwrap();
    assert_eq!(&doc[s..e], b"vehicle : v1 { b }");
}

#[test]
fn edit_twice_differs_where_the_value_cannot_be_set_again() {
    let doc = b"vehicle : v1 {\n odometer: 100\n plate: \"ABC\"\n license_plate: \"ABC\"\n}\n";
    for (key, value) in [
        (&b"odometer"[..], &b" 7"[..]),
        (b"odometer", b"\"7\""),
        (b"odometer", b"1\n2"),
        (b"odometer", b"7 "),
        (b"plate", b"say \"hi\""),
        (b"license_plate", b"A|B"),
    ] {
        let once = edit_field(doc, b"vehicle", b"v1", key, value).unwrap();
        let twice = edit_field(&once, b"vehicle", b"v1", key, value).unwrap();
        assert_ne!(once, twice, "{:?}", std::str::from_utf8(value));
    }
}
