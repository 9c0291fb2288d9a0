use serde_nbt::binary::mutf8::{
    decode, decode_code_point, decode_mutf8, decode_surrogate, decode_surrogate_pair, encode,
    encode_mutf8, encode_surrogate, encode_surrogate_pair, is_continuation_byte, is_valid, len,
    to_surrogate_pair, utf8_char_width,
};
use serde_nbt::error::Category;

#[test]
fn plain_text_is_its_own_encoding() {
    assert!(is_valid("hello"));
    assert_eq!(encode("hello"), b"hello".to_vec());
    assert_eq!(encode("gr\u{FC}\u{DF}e \u{20AC}"), "gr\u{FC}\u{DF}e \u{20AC}".as_bytes().to_vec());
    assert_eq!(encode(""), Vec::<u8>::new());
    assert!(is_valid(""));
}

#[test]
fn nul_is_escaped() {
    assert!(!is_valid("a\0b"));
    assert_eq!(encode("a\0b"), vec![0x61, 0xC0, 0x80, 0x62]);
    assert_eq!(encode_mutf8("\0"), vec![0xC0, 0x80]);
    assert_eq!(len("a\0b"), 4);
}

#[test]
fn astral_character_becomes_a_surrogate_pair() {
    assert!(!is_valid("\u{1F600}"));
    assert_eq!(encode("\u{1F600}"), vec![0xED, 0xA0, 0xBD, 0xED, 0xB8, 0x80]);
    assert_eq!(encode("\u{10000}"), vec![0xED, 0xA0, 0x80, 0xED, 0xB0, 0x80]);
    assert_eq!(encode("\u{10FFFF}"), vec![0xED, 0xAF, 0xBF, 0xED, 0xBF, 0xBF]);
    assert_eq!(len("x\u{1F600}y"), 8);
    assert_eq!(len("\u{20AC}"), 3);
}

#[test]
fn encoding_never_holds_a_zero_byte() {
    for text in ["", "\0", "\0\0a\0", "a\u{1F600}\0\u{7FF}\u{800}\u{FFFF}"] {
        assert!(encode(text).iter().all(|b| *b != 0));
    }
}

#[test]
fn decode_undoes_encode() {
    for text in [
        "",
        "plain",
        "\0",
        "a\0b",
        "\u{7F}\u{80}\u{7FF}\u{800}\u{FFFF}",
        "\u{D7FF}\u{E000}",
        "\u{10000}\u{1F600}\u{10FFFF}",
        "mix \0 \u{1F600} \u{20AC} end",
    ] {
        assert_eq!(decode(&encode(text)).unwrap(), text);
        assert_eq!(encode_mutf8(text), encode(text));
    }
}

#[test]
fn every_character_survives_the_codec() {
    let mut code = 0u32;
    while code <= 0x10FFFF {
        if let Some(c) = char::from_u32(code) {
            let text = c.to_string();
            assert_eq!(decode(&encode(&text)).unwrap(), text);
        }
        code += 0x101;
    }
}

#[test]
fn valid_utf8_is_taken_as_it_is() {
    assert_eq!(decode(b"abc").unwrap(), "abc");
    assert_eq!(decode(&[0x00]).unwrap(), "\0");
    assert_eq!(decode("\u{1F600}".as_bytes()).unwrap(), "\u{1F600}");
    assert_eq!(decode(&[]).unwrap(), "");
}

#[test]
fn strict_reading_takes_the_escapes() {
    assert_eq!(decode_mutf8(&[0xC0, 0x80]).unwrap(), "\0");
    assert_eq!(decode_mutf8(&[0x61, 0xC0, 0x80, 0x00]).unwrap(), "a\0\0");
    assert_eq!(decode_mutf8(&[0xED, 0xA0, 0xBD, 0xED, 0xB8, 0x80]).unwrap(), "\u{1F600}");
    assert_eq!(decode_mutf8(&[0xC3, 0xBC, 0xE2, 0x82, 0xAC]).unwrap(), "\u{FC}\u{20AC}");
}

#[test]
fn strict_reading_refuses_four_byte_sequences() {
    let error = decode_mutf8("\u{1F600}".as_bytes()).unwrap_err();
    assert_eq!(error.get_category(), Category::InvalidData);
    assert_eq!(error.get_message().as_str(), "invalid MUTF-8 data");
    assert!(decode(&[0xF0, 0x9F, 0x98, 0x80, 0xC0, 0x80]).is_err());
}

#[test]
fn malformed_text_is_invalid_data() {
    let cases: Vec<Vec<u8>> = vec![
        vec![0xC0],
        vec![0xC0, 0x81],
        vec![0xC1, 0x80],
        vec![0x80],
        vec![0xFF],
        vec![0xC3],
        vec![0xC3, 0x41],
        vec![0xE2, 0x82],
        vec![0xE2, 0x41, 0x80],
        vec![0xE0, 0x80, 0x80],
        vec![0xED, 0xA0, 0x80],
        vec![0xED, 0xB0, 0x80],
        vec![0xED, 0xA0, 0x80, 0xED, 0xA0, 0x80],
        vec![0xED, 0xA0, 0x80, 0xEE, 0xB0, 0x80],
        vec![0xED, 0xA0, 0x80, 0xED, 0xB0],
        vec![0xED, 0xA0, 0x80, 0xED, 0xB0, 0x41],
        vec![0xF5, 0x80, 0x80, 0x80],
    ];
    for bytes in cases {
        let error = decode(&bytes).unwrap_err();
        assert_eq!(error.get_category(), Category::InvalidData);
        assert!(decode_mutf8(&bytes).is_err());
    }
}

#[test]
fn byte_classes() {
    assert!(is_continuation_byte(0x80));
    assert!(is_continuation_byte(0xBF));
    assert!(!is_continuation_byte(0x7F));
    assert!(!is_continuation_byte(0xC0));
    assert_eq!(utf8_char_width(0x00), Some(1));
    assert_eq!(utf8_char_width(0x7F), Some(1));
    assert_eq!(utf8_char_width(0x80), None);
    assert_eq!(utf8_char_width(0xC1), None);
    assert_eq!(utf8_char_width(0xC2), Some(2));
    assert_eq!(utf8_char_width(0xDF), Some(2));
    assert_eq!(utf8_char_width(0xE0), Some(3));
    assert_eq!(utf8_char_width(0xEF), Some(3));
    assert_eq!(utf8_char_width(0xF0), Some(4));
    assert_eq!(utf8_char_width(0xF4), Some(4));
    assert_eq!(utf8_char_width(0xF5), None);
}

#[test]
fn surrogate_arithmetic() {
    assert_eq!(to_surrogate_pair(0x1F600), [0xD83D, 0xDE00]);
    assert_eq!(to_surrogate_pair(0x10000), [0xD800, 0xDC00]);
    assert_eq!(to_surrogate_pair(0x10FFFF), [0xDBFF, 0xDFFF]);
    assert_eq!(encode_surrogate(0xD83D), [0xED, 0xA0, 0xBD]);
    assert_eq!(encode_surrogate(0xDE00), [0xED, 0xB8, 0x80]);
    assert_eq!(encode_surrogate_pair([0xD83D, 0xDE00]), [0xED, 0xA0, 0xBD, 0xED, 0xB8, 0x80]);
    assert_eq!(decode_surrogate(0xA0, 0xBD), 0xD83D);
    assert_eq!(decode_surrogate(0xB8, 0x80), 0xDE00);
    assert_eq!(decode_code_point(0x1F600), [0xF0, 0x9F, 0x98, 0x80]);
    assert_eq!(decode_surrogate_pair(0xA0, 0xBD, 0xB8, 0x80), [0xF0, 0x9F, 0x98, 0x80]);
    assert_eq!(
        decode_surrogate_pair(0xAF, 0xBF, 0xBF, 0xBF),
        [0xF4, 0x8F, 0xBF, 0xBF]
    );
}
