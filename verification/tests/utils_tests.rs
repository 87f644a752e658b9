use serial_monitor::utils::{
    encode_for_send, format_binary, format_hex, get_gbk_char, has_potential_gbk, has_valid_chinese,
    hex_input_echo, parse_hex_input, receive_encoding_of, smart_chunk_decode,
    smart_gbk_decode, try_decode, try_utf8, Charset,
    DisplayMode, HexInputError, ReceiveEncoding,
};

#[test]
fn try_utf8_ascii_is_one_byte() {
    assert_eq!(try_utf8(&[0x41, 0x42]), 1);
}

#[test]
fn try_utf8_multibyte_lengths() {
    assert_eq!(try_utf8(&[0xC3, 0xA9]), 2);
    assert_eq!(try_utf8(&[0xE4, 0xB8, 0xAD]), 3);
    assert_eq!(try_utf8(&[0xF0, 0x9F, 0x98, 0x80]), 4);
}

#[test]
fn try_utf8_rejects_bad_patterns() {
    assert_eq!(try_utf8(&[]), 0);
    assert_eq!(try_utf8(&[0x80]), 0);
    assert_eq!(try_utf8(&[0xC3]), 0);
    assert_eq!(try_utf8(&[0xE4, 0xB8]), 0);
    assert_eq!(try_utf8(&[0xD6, 0xD0]), 0);
    assert_eq!(try_utf8(&[0xF8, 0x80, 0x80, 0x80]), 0);
}

#[test]
fn potential_gbk_pairs() {
    assert!(has_potential_gbk(&[0xD6, 0xD0]));
    assert!(has_potential_gbk(&[0x41, 0x81, 0x40]));
    assert!(!has_potential_gbk(&[0x41, 0x42, 0x43]));
    assert!(!has_potential_gbk(&[0x81]));
    assert!(!has_potential_gbk(&[0x81, 0x7F]));
    assert!(!has_potential_gbk(&[]));
}

#[test]
fn chinese_detection() {
    assert!(has_valid_chinese("中文"));
    assert!(has_valid_chinese("abc一"));
    assert!(!has_valid_chinese("abc"));
    assert!(!has_valid_chinese("のかな"));
    assert!(!has_valid_chinese(""));
}

#[test]
fn gbk_char_of_valid_pair() {
    assert_eq!(get_gbk_char(&[0xD6, 0xD0]), ("中".to_string(), true));
}

#[test]
fn gbk_char_of_non_gbk_input() {
    assert_eq!(get_gbk_char(&[0x41, 0x42]), (String::new(), false));
    assert_eq!(get_gbk_char(&[0xD6]), (String::new(), false));
}

#[test]
fn smart_gbk_decode_pairs_and_odd_byte() {
    assert_eq!(smart_gbk_decode(&[0xD6, 0xD0, 0xCE, 0xC4]), "中文");
    assert_eq!(smart_gbk_decode(&[0xD6, 0xD0, 0x41]), "中A");
    assert_eq!(smart_gbk_decode(&[]), "");
}

#[test]
fn chunk_decode_mixes_utf8_gbk_and_ascii() {
    let bytes = [0x41, 0xE4, 0xB8, 0xAD, 0xD6, 0xD0, 0x42];
    assert_eq!(smart_chunk_decode(&bytes), "A中中B");
}

#[test]
fn chunk_decode_falls_back_to_windows_1252() {
    assert_eq!(smart_chunk_decode(&[0x80]), "€");
    assert_eq!(smart_chunk_decode(&[0x41, 0x80]), "A€");
}

#[test]
fn chunk_decode_takes_overlong_and_surrogate_bytes() {
    assert!(!smart_chunk_decode(&[0xC0, 0x80]).is_empty());
    assert!(!smart_chunk_decode(&[0xED, 0xA0, 0x80]).is_empty());
    assert_eq!(smart_chunk_decode(&[0x41, 0x42]), "AB");
}

#[test]
fn hex_and_binary_dumps() {
    assert_eq!(format_hex(&[0x01, 0xAB, 0xFF]), "01 AB FF ");
    assert_eq!(format_hex(&[]), "");
    assert_eq!(format_binary(&[5, 0xFF]), "00000101 11111111 ");
}

#[test]
fn receive_encoding_names() {
    assert_eq!(receive_encoding_of("自动识别"), ReceiveEncoding::Auto);
    assert_eq!(receive_encoding_of("GB2312"), ReceiveEncoding::Legacy(Charset::Gbk));
    assert_eq!(receive_encoding_of("UTF-16 BE"), ReceiveEncoding::Legacy(Charset::Utf16Be));
    assert_eq!(receive_encoding_of("ASCII"), ReceiveEncoding::Latin1);
    assert_eq!(receive_encoding_of("UTF-8"), ReceiveEncoding::Utf8);
    assert_eq!(receive_encoding_of("whatever"), ReceiveEncoding::Utf8);
}

#[test]
fn decode_auto_prefers_utf8() {
    assert_eq!(try_decode("héllo".as_bytes(), "自动识别"), "héllo");
}

#[test]
fn decode_auto_reads_gbk() {
    assert_eq!(try_decode(&[0xD6, 0xD0, 0xCE, 0xC4], "自动识别"), "中文");
}

#[test]
fn decode_utf8_or_hex() {
    assert_eq!(try_decode(&[0x68, 0x69], "UTF-8"), "hi");
    assert_eq!(try_decode(&[0xFF, 0x01], "UTF-8"), "FF 01 ");
    assert_eq!(try_decode(&[0xFF], "unknown"), "FF ");
}

#[test]
fn decode_legacy_encodings() {
    assert_eq!(try_decode(&[0xD6, 0xD0], "GB2312"), "中");
    assert_eq!(try_decode(&[0xC1], "KOI8-R"), "а");
    assert_eq!(try_decode(&[0x80], "Windows-1252"), "€");
    assert_eq!(try_decode(&[0x41, 0x00], "UTF-16 LE"), "A");
    assert_eq!(try_decode(&[0x00, 0x41], "UTF-16 BE"), "A");
}

#[test]
fn decode_utf16_needs_two_bytes() {
    assert_eq!(try_decode(&[0x41], "UTF-16 LE"), "41 ");
    assert_eq!(try_decode(&[], "UTF-16 BE"), "");
}

#[test]
fn decode_latin1_maps_each_byte() {
    assert_eq!(try_decode(&[0x41, 0xE9], "Latin1"), "Aé");
    assert_eq!(try_decode(&[0xFF], "ASCII"), "ÿ");
}

#[test]
fn decode_any_bytes() {
    assert_eq!(try_decode(&[0xD6, 0xD0], "GB2312"), "中");
    assert_eq!(try_decode(b"ok", "自动识别"), "ok");
    assert!(!try_decode(&[0xFF, 0xC0, 0x80, 0x81], "自动识别").is_empty());
}

#[test]
fn hex_input_parses_pairs() {
    assert_eq!(parse_hex_input("01 ab FF"), Ok(vec![0x01, 0xAB, 0xFF]));
    assert_eq!(parse_hex_input(""), Ok(vec![]));
    assert_eq!(parse_hex_input("+1"), Ok(vec![0x01]));
}

#[test]
fn hex_input_errors() {
    assert_eq!(parse_hex_input("123"), Err(HexInputError::OddLength));
    assert_eq!(parse_hex_input("zz"), Err(HexInputError::InvalidHex));
    assert_eq!(parse_hex_input("01 0g"), Err(HexInputError::InvalidHex));
}

#[test]
fn hex_dump_sends_back_the_same_bytes() {
    let bytes = [0x00, 0x7F, 0x80, 0xFE];
    let dump = format_hex(&bytes);
    assert_eq!(parse_hex_input(&dump), Ok(bytes.to_vec()));
}

#[test]
fn hex_echo_groups_pairs() {
    assert_eq!(hex_input_echo("0102 03"), "01 02 03");
    assert_eq!(hex_input_echo("abc"), "ab c");
    assert_eq!(hex_input_echo(""), "");
}

#[test]
fn send_encodings() {
    assert_eq!(encode_for_send("中", "GB2312", false), vec![0xD6, 0xD0]);
    assert_eq!(encode_for_send("A", "UTF-8", true), vec![0x41, 13, 10]);
    assert_eq!(encode_for_send("é", "Latin1", false), vec![0xE9]);
    assert_eq!(encode_for_send("é", "自动识别", false), vec![0xC3, 0xA9]);
}

#[test]
fn send_utf16_writes_utf8() {
    assert_eq!(encode_for_send("é", "UTF-16 LE", false), vec![0xC3, 0xA9]);
}

#[test]
fn utf8_send_reads_back() {
    let text = "串口 test ✓";
    let bytes = encode_for_send(text, "UTF-8", false);
    assert_eq!(try_decode(&bytes, "UTF-8"), text);
}

#[test]
fn display_mode_names_round_trip() {
    for mode in [DisplayMode::UTF8, DisplayMode::Hex, DisplayMode::Binary] {
        assert_eq!(DisplayMode::from_name(&mode.name()), mode);
    }
    assert_eq!(DisplayMode::from_name("Hex"), DisplayMode::Hex);
    assert_eq!(DisplayMode::from_name("nonsense"), DisplayMode::UTF8);
    assert_eq!(DisplayMode::Binary.name(), "Binary");
}

#[test]
fn latin1_send_reads_back() {
    for name in ["Latin1", "ASCII"] {
        let text = "été ÿ";
        let bytes = encode_for_send(text, name, false);
        assert_eq!(bytes, vec![0xE9, 0x74, 0xE9, 0x20, 0xFF]);
        assert_eq!(try_decode(&bytes, name), text);
    }
}

#[test]
fn chinese_range_bounds() {
    assert!(has_valid_chinese("\u{4E00}"));
    assert!(has_valid_chinese("\u{9FFF}"));
    assert!(!has_valid_chinese("\u{4DFF}"));
    assert!(!has_valid_chinese("\u{A000}"));
}

#[test]
fn try_utf8_refuses_ill_formed_utf8() {
    assert_eq!(try_utf8(&[0xC0, 0x80]), 0);
    assert_eq!(try_utf8(&[0xC1, 0xBF]), 0);
    assert_eq!(try_utf8(&[0xE0, 0x80, 0x80]), 0);
    assert_eq!(try_utf8(&[0xED, 0xA0, 0x80]), 0);
    assert_eq!(try_utf8(&[0xF5, 0x80, 0x80, 0x80]), 0);
    assert_eq!(try_utf8(&[0xF4, 0x8F, 0xBF, 0xBF]), 4);
    assert_eq!(try_utf8(&[0xED, 0x9F, 0xBF]), 3);
}
