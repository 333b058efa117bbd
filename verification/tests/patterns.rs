//! The scanners of the library, held against patterns that say the same
//! in the notation of regular expressions, on many small made-up texts.

use ets2_tool::edit::edit_field;
use ets2_tool::extract::{
    extract_array, extract_f32, extract_i64, extract_number, extract_raw, extract_string,
    extract_string_array,
};
use ets2_tool::hex_float::{hex_to_float, parse_value_auto, FloatRepr};
use ets2_tool::locate::locate_block;
use ets2_tool::profile::{change_profile_name_in_sii, extract_profile_name};
use ets2_tool::resolve::{get_player_id, get_vehicle_ids};
use ets2_tool::save_data::extract_value;
use regex::Regex;

struct Rng(u64);

impl Rng {
    fn next(&mut self) -> usize {
        self.0 = self.0.wrapping_mul(6364136223846793005).wrapping_add(1442695040888963407);
        (self.0 >> 33) as usize
    }

    fn text(&mut self, words: &[&str], max: usize) -> String {
        let n = self.next() % (max + 1);
        let mut s = String::new();
        for _ in 0..n {
            s.push_str(words[self.next() % words.len()]);
        }
        s
    }
}

const FIELD_WORDS: &[&str] = &[
    "key", "key", "key:", "key: ", "key :", ":", " ", " ", "\n", "\r\n", "\t", "\"", "\"", "12",
    "7", "&3f", "&", "a", "F", ".", "-", "1.5", "{", "}", "[0]", "[12]", "[", "]", "x", "|", "_",
    "key[1]: ", "key[0]:", "9223372036854775807", "99999999999999999999",
];

fn float_of(r: &FloatRepr) -> f32 {
    match r {
        FloatRepr::Bits(b) => f32::from_bits(*b),
        FloatRepr::Decimal(t) => std::str::from_utf8(t).unwrap().parse::<f32>().unwrap(),
    }
}

fn float_by_rule(token: &str) -> Option<f32> {
    let trimmed = token.trim();
    if trimmed.starts_with('&') || trimmed.starts_with("0x") {
        let cleaned = trimmed.trim_start_matches('&').trim_start_matches("0x");
        return u32::from_str_radix(cleaned, 16).ok().map(f32::from_bits);
    }
    trimmed.replace(',', ".").parse::<f32>().ok()
}

fn same_float(a: Option<f32>, b: Option<f32>) -> bool {
    match (a, b) {
        (Some(x), Some(y)) => x.to_bits() == y.to_bits() || (x.is_nan() && y.is_nan()),
        (None, None) => true,
        _ => false,
    }
}

#[test]
fn scalar_readers_agree_with_their_patterns() {
    let string = Regex::new(r#"(?-u:\b)key\s*:\s*"([^"]*)""#).unwrap();
    let digits = Regex::new(r"(?-u:\b)key\s*:\s*([0-9]+)").unwrap();
    let decimal = Regex::new(r"(?-u:\b)key\s*:\s*([0-9\.\-]+)").unwrap();
    let hex = Regex::new(r"(?-u:\b)key\s*:\s*&([0-9a-fA-F]+)").unwrap();
    let number = Regex::new(r"(?-u:\b)key\s*:\s*(&[0-9a-fA-F]+|[0-9\.\-]+)").unwrap();
    let mut rng = Rng(1);
    for _ in 0..4000 {
        let doc = rng.text(FIELD_WORDS, 12);
        let b = doc.as_bytes();
        let want = string.captures(&doc).map(|c| c[1].as_bytes().to_vec());
        assert_eq!(extract_string(b, b"key"), want, "{doc:?}");
        let want = digits.captures(&doc).and_then(|c| c[1].parse::<i64>().ok());
        assert_eq!(extract_i64(b, b"key"), want, "{doc:?}");
        let want = hex.captures(&doc).map(|c| c[1].as_bytes().to_vec());
        assert_eq!(extract_raw(b, b"key"), want, "{doc:?}");
        let want = decimal.captures(&doc).and_then(|c| c[1].parse::<f32>().ok());
        let got = extract_f32(b, b"key")
            .map(|t| std::str::from_utf8(&t).unwrap().parse::<f32>().unwrap());
        assert!(same_float(got, want), "{doc:?}");
        let want = number.captures(&doc).and_then(|c| float_by_rule(&c[1]));
        let got = extract_number(b, b"key").as_ref().map(float_of);
        assert!(same_float(got, want), "{doc:?}");
    }
}

#[test]
fn array_readers_agree_with_their_patterns() {
    let numbers =
        Regex::new(r"(?-u:\b)key\[\d+\]\s*:\s*(&[0-9a-fA-F]+|[0-9\.\-]+)").unwrap();
    let strings = Regex::new(r#"(?-u:\b)key\[\d+\]\s*:\s*"([^"]*)""#).unwrap();
    let words: &[&str] = &[
        "key[0]: ", "key[1]: ", "key[2]:", "key[10] : ", "key", "[3]", ":", " ", "\n", "\"a\"",
        "\"", "&3f000000", "0.5", "7", "x", "-", ".", "_",
    ];
    let indices = Regex::new(r"(?-u:\b)key\[(\d+)\]\s*:").unwrap();
    let mut rng = Rng(2);
    for _ in 0..4000 {
        // In a text whose indices rise, the order of the indices is the
        // order of the lines.
        let doc = rng.text(words, 10);
        let mut last = 0u64;
        let mut rising = true;
        for c in indices.captures_iter(&doc) {
            let i: u64 = c[1].parse().unwrap();
            rising = rising && i >= last;
            last = i;
        }
        if !rising {
            continue;
        }
        let b = doc.as_bytes();
        let want: Vec<u32> = numbers
            .captures_iter(&doc)
            .filter_map(|c| float_by_rule(&c[1]))
            .map(f32::to_bits)
            .collect();
        let got: Vec<u32> =
            extract_array(b, b"key").iter().map(|r| float_of(r).to_bits()).collect();
        assert_eq!(got, want, "{doc:?}");
        let want: Vec<Vec<u8>> =
            strings.captures_iter(&doc).map(|c| c[1].as_bytes().to_vec()).collect();
        assert_eq!(extract_string_array(b, b"key"), want, "{doc:?}");
    }
}

#[test]
fn line_leading_numbers_agree_with_their_pattern() {
    let pattern = Regex::new(r"(?m)^\s*key\s*:\s*(-?\d+)").unwrap();
    let words: &[&str] =
        &["key", "key: ", "key:-", " ", "\n", "\t", "\r", "x", "-", "5", "12", ":", "-7", "a key: 3"];
    let mut rng = Rng(3);
    for _ in 0..4000 {
        let doc = rng.text(words, 10);
        let want = pattern.captures(&doc).and_then(|c| c[1].parse::<i64>().ok());
        assert_eq!(extract_value(doc.as_bytes(), b"key"), want, "{doc:?}");
    }
}

fn opening_of(class: &str, id: &str) -> Regex {
    Regex::new(&format!(r"(?-u:\b){}\s*:\s*{}\s*\{{", class, regex::escape(id))).unwrap()
}

fn unit_by_rule(opening: &Regex, doc: &str) -> Option<(usize, usize)> {
    let m = opening.find(doc)?;
    let mut open = 1;
    for (i, b) in doc.bytes().enumerate().skip(m.end()) {
        if b == b'{' {
            open += 1;
        } else if b == b'}' {
            open -= 1;
            if open == 0 {
                return Some((m.start(), i + 1));
            }
        }
    }
    None
}

const UNIT_WORDS: &[&str] = &[
    "unit", "unit", " : ", ":", "u1", "u1", "u2", "u10", " ", "\n", "{", "{", "}", "}", " {", "x",
    "key: 5", "key: \"a|b\"", "key: 1 }", " key :\t7\r\n", "my_unit : u1 {", "unit : u1 {\n",
    "\n}\n", "unit : u1 { ", "unit:u1{", " key: 5 \n", "my_key: 3\n", "key: x y  }",
];

#[test]
fn the_locator_agrees_with_its_rule() {
    let opening = opening_of("unit", "u1");
    let mut rng = Rng(4);
    for _ in 0..6000 {
        let doc = rng.text(UNIT_WORDS, 14);
        assert_eq!(
            locate_block(doc.as_bytes(), b"unit", b"u1").ok(),
            unit_by_rule(&opening, &doc),
            "{doc:?}"
        );
    }
}

#[test]
fn the_editor_agrees_with_its_rule() {
    // A quoted value runs through its closing quote; any other to the end
    // of the line or to a closing brace, without the blanks at its end.
    let field =
        Regex::new(r#"(?-u:\b)(key\s*:\s*)("[^"\r\n]*"|[^\r\n}]*[^\s}])"#).unwrap();
    let opening = opening_of("unit", "u1");
    let mut rng = Rng(5);
    let mut edits = 0;
    for _ in 0..6000 {
        let doc = rng.text(UNIT_WORDS, 14);
        let want = unit_by_rule(&opening, &doc).and_then(|(s, e)| {
            let block = &doc[s..e];
            let c = field.captures(block)?;
            let value = c.get(2).unwrap();
            if value.as_str().starts_with('"') {
                return None;
            }
            Some(format!("{}{}{}", &doc[..s + value.start()], "42", &doc[s + value.end()..]))
        });
        if let Some(want) = want {
            edits += 1;
            assert_eq!(
                edit_field(doc.as_bytes(), b"unit", b"u1", b"key", b"42"),
                Ok(want.into_bytes()),
                "{doc:?}"
            );
        }
    }
    assert!(edits > 100);
}

fn plate_by_rule(old_value: &str, plate: &str) -> String {
    let unquoted = old_value.trim_matches('"');
    match unquoted.rfind('|') {
        Some(i) => format!("\"{}|{}\"", plate, &unquoted[i + 1..]),
        None => format!("\"{}\"", plate),
    }
}

#[test]
fn plates_are_framed_by_their_rule() {
    let words: &[&str] = &["A", "B 1", "|", "de", "\"", " ", "x|y", "||"];
    let mut rng = Rng(6);
    for _ in 0..3000 {
        let old = format!("\"{}", rng.text(words, 5));
        let doc = format!("unit : u1 {{\n license_plate: {}\n}}", old);
        // The value ends with the quote that closes it, or, where none
        // does, with the last byte of its line that is no blank.
        let end = match old[1..].find('"') {
            Some(i) => i + 2,
            None => old.trim_end_matches(' ').len(),
        };
        let want = format!(
            "unit : u1 {{\n license_plate: {}{}\n}}",
            plate_by_rule(&old[..end], "NEW"),
            &old[end..]
        );
        assert_eq!(
            edit_field(doc.as_bytes(), b"unit", b"u1", b"license_plate", b"NEW"),
            Ok(want.into_bytes()),
            "{doc:?}"
        );
    }
}

fn balanced_from(doc: &str, body: usize) -> Option<usize> {
    let mut open = 1;
    for (i, b) in doc.bytes().enumerate().skip(body) {
        if b == b'{' {
            open += 1;
        } else if b == b'}' {
            open -= 1;
            if open == 0 {
                return Some(i + 1);
            }
        }
    }
    None
}

fn reference_by_rule(field: &Regex, block: &str) -> Option<String> {
    field.captures(block).map(|c| c[1].to_string())
}

fn player_id_by_rule(economy: &Regex, player: &Regex, content: &str) -> Option<String> {
    let (start, end) = economy
        .find_iter(content)
        .find_map(|m| balanced_from(content, m.end()).map(|e| (m.start(), e)))?;
    reference_by_rule(player, &content[start..end])
}

fn vehicle_ids_by_rule(
    opening: &Regex,
    truck: &Regex,
    trailer: &Regex,
    content: &str,
) -> (Option<String>, Option<String>) {
    let Some((start, end)) = unit_by_rule(opening, content) else {
        return (None, None);
    };
    let block = &content[start..end];
    let attached = |id: Option<String>| id.filter(|w| w != "null");
    (attached(reference_by_rule(truck, block)), attached(reference_by_rule(trailer, block)))
}

#[test]
fn the_resolver_agrees_with_its_rule() {
    let words: &[&str] = &[
        "economy : e {", "economy :", "economy:e{", "player: p1", "player:", "player : p1 {",
        "player :  p1  {", "player : p10 {", "my_player : p1 {", "my_truck: t1", "my_truck:",
        "not_my_truck: t9", "my_trailer: null", "my_trailer: t2 x", "sub {", "{", "}", "}", "}",
        "\n", "\n", "\n", "\r\n", " ", "\t", "x", "bank: b", "economy : e {\n player: p1\n",
        "economy : e { player: p1 }", "player : p1 {\n my_truck: t1\n",
    ];
    let economy = Regex::new(r"(?-u:\b)economy\s*:\s*[A-Za-z0-9._]+\s*\{").unwrap();
    let player = Regex::new(r"(?-u:\b)player\s*:\s*([A-Za-z0-9._]+)").unwrap();
    let truck = Regex::new(r"(?-u:\b)my_truck\s*:\s*([A-Za-z0-9._]+)").unwrap();
    let trailer = Regex::new(r"(?-u:\b)my_trailer\s*:\s*([A-Za-z0-9._]+)").unwrap();
    let opening = opening_of("player", "p1");
    let mut rng = Rng(7);
    let mut found = 0;
    for _ in 0..6000 {
        let doc = rng.text(words, 14);
        let bytes = |o: Option<String>| o.map(String::into_bytes);
        let id = player_id_by_rule(&economy, &player, &doc);
        if id.is_some() {
            found += 1;
        }
        assert_eq!(get_player_id(doc.as_bytes()), bytes(id), "{doc:?}");
        let (t, r) = vehicle_ids_by_rule(&opening, &truck, &trailer, &doc);
        assert_eq!(get_vehicle_ids(doc.as_bytes(), b"p1"), (bytes(t), bytes(r)), "{doc:?}");
    }
    assert!(found > 50);
}

#[test]
fn the_codec_agrees_with_its_rule() {
    let words: &[&str] = &[
        "&", "0x", "0", "x", "3f", "8", "a", "F", "g", " ", "\t", "\n", "+", "-", ".", ",", "e",
        "1", "inf", "nan", "00000000",
    ];
    let mut rng = Rng(8);
    for _ in 0..8000 {
        let token = rng.text(words, 6);
        let cleaned = token.trim().trim_start_matches('&').trim_start_matches("0x");
        assert_eq!(
            hex_to_float(token.as_bytes()).ok(),
            u32::from_str_radix(cleaned, 16).ok(),
            "{token:?}"
        );
        let got = parse_value_auto(token.as_bytes()).ok().as_ref().map(float_of);
        assert!(same_float(got, float_by_rule(&token)), "{token:?}");
    }
}

fn profile_name_by_rule(content: &str) -> Option<String> {
    for line in content.lines() {
        if line.trim_start().starts_with("profile_name:") {
            return line.split('"').nth(1).map(|s| s.to_string());
        }
    }
    None
}

fn renamed_by_rule(content: &str, new_name: &str) -> Option<String> {
    let mut result = String::new();
    let mut found = false;
    for line in content.lines() {
        if line.trim_start().starts_with("profile_name:") {
            result.push_str(&format!(" profile_name: \"{}\"", new_name));
            found = true;
        } else {
            result.push_str(line);
        }
        result.push_str("\r\n");
    }
    if found {
        Some(result)
    } else {
        None
    }
}

#[test]
fn profile_names_agree_with_their_rule() {
    let words: &[&str] = &[
        "profile_name:", "profile_name: ", " ", "\t", "\n", "\n", "\r\n", "\r", "\"", "\"", "Max",
        "x", "face: 1",
    ];
    let mut rng = Rng(9);
    for _ in 0..6000 {
        let doc = rng.text(words, 10);
        assert_eq!(
            extract_profile_name(doc.as_bytes()),
            profile_name_by_rule(&doc).map(String::into_bytes),
            "{doc:?}"
        );
        assert_eq!(
            change_profile_name_in_sii(doc.as_bytes(), b"New").ok(),
            renamed_by_rule(&doc, "New").map(String::into_bytes),
            "{doc:?}"
        );
    }
}

#[test]
fn config_readers_agree_with_their_patterns() {
    let number = Regex::new(r#"(?-u:\b)uset g_traffic(?-u:\b)\s*"?(\d+)"#).unwrap();
    let quoted = Regex::new(r#"(?-u:\b)uset g_traffic\s+"(\d+)""#).unwrap();
    let words: &[&str] = &[
        "uset g_traffic", "uset g_traffic ", "uset g_traffic \"", "uset ", "g_traffic", "\"", "\"",
        " ", "\n", "\t", "5", "12", "x", "99999999999999999999", "uset g_trafficx \"1\"",
        "_", "uset g_traffic_x \"3\"",
    ];
    let mut rng = Rng(10);
    for _ in 0..6000 {
        let doc = rng.text(words, 8);
        let want = number.captures(&doc).and_then(|c| c[1].parse::<i64>().ok());
        assert_eq!(
            ets2_tool::config::read_base_config(doc.as_bytes()).traffic,
            want,
            "{doc:?}"
        );
        let got = ets2_tool::config::read_traffic_value(doc.as_bytes());
        match quoted.captures(&doc) {
            None => assert_eq!(got, Err(ets2_tool::config::ConfigError::NotFound), "{doc:?}"),
            Some(c) => match c[1].parse::<i64>() {
                Ok(v) => assert_eq!(got, Ok(v.clamp(0, 10)), "{doc:?}"),
                Err(_) => assert_eq!(got, Err(ets2_tool::config::ConfigError::Invalid), "{doc:?}"),
            },
        }
    }
}

#[test]
fn config_editor_agrees_with_its_pattern() {
    let setting = Regex::new(r#"(?-u:\b)uset g_developer\s+"[^"]+""#).unwrap();
    let words: &[&str] = &[
        "uset g_developer \"", "uset g_developer \"0\"", "uset g_developer", "\"", " ", "\n", "1",
        "x", "uset g_console \"1\"", "_",
    ];
    let mut rng = Rng(11);
    let mut edits = 0;
    for _ in 0..6000 {
        let doc = rng.text(words, 8);
        let got = ets2_tool::config::edit_developer_value(doc.as_bytes(), 7);
        match setting.find(&doc) {
            None => assert_eq!(got, Err(ets2_tool::config::ConfigError::NotFound), "{doc:?}"),
            Some(m) => {
                // The pattern takes the whole setting; what is written anew
                // differs from it between the quotes alone.
                let found = m.as_str();
                let open = found.find('"').unwrap();
                let want = format!(
                    "{}{}\"7\"{}",
                    &doc[..m.start()],
                    &found[..open],
                    &doc[m.end()..]
                );
                edits += 1;
                assert_eq!(got, Ok(want.into_bytes()), "{doc:?}");
            }
        }
    }
    assert!(edits > 100);
}

fn mods_by_rule(pattern: &Regex, content: &str) -> Vec<String> {
    pattern.captures_iter(content).map(|c| c[1].to_string()).collect()
}

fn injected_by_rule(
    count: &Regex,
    listed: &Regex,
    content: &str,
    mods: &[String],
) -> Option<String> {
    let mut new_lines = Vec::new();
    let mut injected = false;
    for line in content.lines() {
        if listed.is_match(line) {
            continue;
        }
        if count.is_match(line) {
            let indentation = line.split("active_mods").next().unwrap_or("");
            new_lines.push(format!("{}active_mods: {}", indentation, mods.len()));
            for (i, m) in mods.iter().enumerate() {
                new_lines.push(format!("{}active_mods[{}]: \"{}\"", indentation, i, m));
            }
            injected = true;
        } else {
            new_lines.push(line.to_string());
        }
    }
    if injected {
        Some(new_lines.join("\r\n"))
    } else {
        None
    }
}

#[test]
fn mods_agree_with_their_rule() {
    let words: &[&str] = &[
        "active_mods: 2", "active_mods:", "active_mods", "active_mods[0]: \"a|A\"",
        "active_mods[1]:\"b\"", "active_mods[", "]", ":", " ", "  ", "\t", "\n", "\n", "\r\n", "\"",
        "3", "x", "face: 1",
    ];
    let pattern = Regex::new(r#"(?-u:\b)active_mods\[\d+\]:\s*"(.*)""#).unwrap();
    let count = Regex::new(r"^\s*active_mods:\s*\d+").unwrap();
    let listed = Regex::new(r"^\s*active_mods\[\d+\]:").unwrap();
    let mut rng = Rng(12);
    let mods = vec!["m1|One".to_string(), "m2|Two \"quoted\"".to_string()];
    let mod_bytes: Vec<Vec<u8>> = mods.iter().map(|m| m.clone().into_bytes()).collect();
    for _ in 0..6000 {
        let doc = rng.text(words, 10);
        let want: Vec<Vec<u8>> =
            mods_by_rule(&pattern, &doc).into_iter().map(String::into_bytes).collect();
        assert_eq!(ets2_tool::profile_clone::extract_mods(doc.as_bytes()), want, "{doc:?}");
        assert_eq!(
            ets2_tool::profile_clone::inject_mods(doc.as_bytes(), &mod_bytes).ok(),
            injected_by_rule(&count, &listed, &doc, &mods).map(String::into_bytes),
            "{doc:?}"
        );
    }
}
