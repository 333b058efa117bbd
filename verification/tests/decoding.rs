use ets2_tool::decrypt::{decrypt_if_needed, finish_decrypt, DecryptError, Source};

#[test]
fn plain_text_is_text() {
    let raw = b"SiiNunit\n{\n}\n";
    match decrypt_if_needed(raw) {
        Source::Text(t) => assert_eq!(t, raw.to_vec()),
        Source::Sealed => panic!("plain text taken for a container"),
    }
}

#[test]
fn plain_text_is_decoded_leniently() {
    let raw = b"SiiNunit\n name: \"a\xffb\"\n";
    match decrypt_if_needed(raw) {
        Source::Text(t) => {
            assert_eq!(t, "SiiNunit\n name: \"a\u{fffd}b\"\n".as_bytes().to_vec())
        }
        Source::Sealed => panic!("plain text taken for a container"),
    }
}

#[test]
fn anything_else_is_a_container() {
    assert!(matches!(decrypt_if_needed(b"ScsC\x00\x01"), Source::Sealed));
    assert!(matches!(decrypt_if_needed(b"BSII"), Source::Sealed));
    assert!(matches!(decrypt_if_needed(b"SiiN"), Source::Sealed));
    assert!(matches!(decrypt_if_needed(b""), Source::Sealed));
    assert!(matches!(decrypt_if_needed(b"uset g_traffic \"1\""), Source::Sealed));
}

#[test]
fn decoder_output_is_the_text() {
    let d = finish_decrypt(b"ScsC....", Some(b"SiiNunit\n{}\n"));
    assert_eq!(d.text, b"SiiNunit\n{}\n".to_vec());
    assert_eq!(d.recovered, None);
}

#[test]
fn failed_decode_falls_back_to_the_raw_bytes() {
    let d = finish_decrypt(b"uset g_traffic \"1\"\n", None);
    assert_eq!(d.text, b"uset g_traffic \"1\"\n".to_vec());
    assert_eq!(d.recovered, Some(DecryptError::DecodeFailed));
    let d = finish_decrypt(b"\x80abc", None);
    assert_eq!(d.text, "\u{fffd}abc".as_bytes().to_vec());
}
