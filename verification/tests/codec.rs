use ets2_tool::hex_float::{
    decode_hex_folder_name, float_to_hex, hex_to_float, parse_value_auto, text_to_hex, CodecError,
    FloatRepr,
};

fn float_of(r: &FloatRepr) -> f32 {
    match r {
        FloatRepr::Bits(b) => f32::from_bits(*b),
        FloatRepr::Decimal(t) => std::str::from_utf8(t).unwrap().parse::<f32>().unwrap(),
    }
}

#[test]
fn hex_to_float_reads_half() {
    assert_eq!(hex_to_float(b"&3f000000").map(f32::from_bits), Ok(0.5));
    assert_eq!(hex_to_float(b"  &3f4ccccd\n").map(f32::from_bits), Ok(0.8));
    assert_eq!(hex_to_float(b"0x3F800000").map(f32::from_bits), Ok(1.0));
    assert_eq!(hex_to_float(b"3f800000"), Ok(0x3f80_0000));
    assert_eq!(hex_to_float(b"&&0x0xff"), Ok(0xff));
}

#[test]
fn hex_to_float_rejects_what_is_no_hex() {
    assert_eq!(hex_to_float(b""), Err(CodecError::InvalidHex));
    assert_eq!(hex_to_float(b"&"), Err(CodecError::InvalidHex));
    assert_eq!(hex_to_float(b"&3f00000g"), Err(CodecError::InvalidHex));
    assert_eq!(hex_to_float(b"&100000000"), Err(CodecError::InvalidHex));
    assert_eq!(hex_to_float(b"&3f 000000"), Err(CodecError::InvalidHex));
    assert_eq!(hex_to_float(b"&-1"), Err(CodecError::InvalidHex));
}

#[test]
fn hex_to_float_agrees_with_the_standard_parser() {
    for t in ["+ff", "000000003f000000", "ffffffff", "+", "0", "7F", "1_0"] {
        let want = u32::from_str_radix(t, 16).ok();
        assert_eq!(hex_to_float(t.as_bytes()).ok(), want, "{t}");
    }
}

#[test]
fn float_to_hex_pads_to_eight_lowercase_digits() {
    assert_eq!(float_to_hex(0.0f32.to_bits()), b"&00000000".to_vec());
    assert_eq!(float_to_hex(1.0f32.to_bits()), b"&3f800000".to_vec());
    assert_eq!(float_to_hex(0.8f32.to_bits()), b"&3f4ccccd".to_vec());
    assert_eq!(float_to_hex((-2.5f32).to_bits()), b"&c0200000".to_vec());
    assert_eq!(float_to_hex(0xABCD_EF01), b"&abcdef01".to_vec());
}

#[test]
fn hex_float_round_trip_is_bit_exact() {
    let samples = [
        0.0f32, -0.0, 1.0, -1.0, 0.5, 0.1, 123456.79, f32::MIN_POSITIVE, f32::MAX, f32::MIN,
        f32::EPSILON, 1.0e-40, 37619.512,
    ];
    for x in samples {
        let back = hex_to_float(&float_to_hex(x.to_bits())).map(f32::from_bits).unwrap();
        assert_eq!(back.to_bits(), x.to_bits());
    }
    let mut b: u32 = 1;
    for _ in 0..2000 {
        b = b.wrapping_mul(1664525).wrapping_add(1013904223);
        assert_eq!(hex_to_float(&float_to_hex(b)), Ok(b));
    }
}

#[test]
fn parse_value_auto_takes_hex_and_decimal() {
    assert_eq!(float_of(&parse_value_auto(b"&3f000000").unwrap()), 0.5);
    assert_eq!(float_of(&parse_value_auto(b"0x3f000000").unwrap()), 0.5);
    assert_eq!(float_of(&parse_value_auto(b" 0,83 ").unwrap()), 0.83);
    assert_eq!(parse_value_auto(b"0,83"), Ok(FloatRepr::Decimal(b"0.83".to_vec())));
    assert_eq!(float_of(&parse_value_auto(b"-12.5e3").unwrap()), -12500.0);
    assert_eq!(parse_value_auto(b"abc"), Err(CodecError::InvalidNumber));
    assert_eq!(parse_value_auto(b""), Err(CodecError::InvalidNumber));
    assert_eq!(parse_value_auto(b"&zz"), Err(CodecError::InvalidHex));
}

#[test]
fn decimal_literals_are_those_the_standard_parser_takes() {
    let cases = [
        "1", "1.", ".5", "-.5", "+1.25", "1e5", "1E-5", "1e+5", "1.5e10", "inf", "-inf", "+inf",
        "Infinity", "NaN", "nan", "INF", ".", "-", "", "e5", "1e", "1e+", "1.2.3", "--1", "1-2",
        "0x10", "1 2", "infinit", "nanx", "١", "1f", "..1", "5.e3", ".e3", "+", "1e5.0",
        "007", "-0", "1__0",
    ];
    for c in cases {
        let want = c.parse::<f32>().is_ok();
        let got = matches!(parse_value_auto(c.as_bytes()), Ok(FloatRepr::Decimal(_)));
        if c.starts_with("0x") {
            continue;
        }
        assert_eq!(got, want, "{c:?}");
    }
}

#[test]
fn folder_names_are_spelled_in_hex() {
    assert_eq!(text_to_hex(b"Max"), b"4D6178".to_vec());
    assert_eq!(text_to_hex(b""), Vec::<u8>::new());
    assert_eq!(text_to_hex("ü".as_bytes()), b"C3BC".to_vec());
    assert_eq!(decode_hex_folder_name(b"4D6178"), Some(b"Max".to_vec()));
    assert_eq!(decode_hex_folder_name(b"4d-61 78"), Some(b"Max".to_vec()));
    assert_eq!(decode_hex_folder_name(b""), None);
    assert_eq!(decode_hex_folder_name(b"4D617"), None);
    assert_eq!(decode_hex_folder_name(b"zz"), None);
    assert_eq!(decode_hex_folder_name(b"FF"), None);
    assert_eq!(decode_hex_folder_name(b"C3BC"), Some("ü".as_bytes().to_vec()));
}

#[test]
fn folder_name_round_trip() {
    for name in ["Max", "Player One", "Zoë", "名前"] {
        assert_eq!(
            decode_hex_folder_name(&text_to_hex(name.as_bytes())),
            Some(name.as_bytes().to_vec())
        );
    }
}
