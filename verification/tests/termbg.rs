use termbg::BackgroundStyle;
use termbg::DataError;
use termbg::RgbColor;
use termbg::hsp;
use termbg::parse_response;
use termbg::query_sequence;

#[test]
fn red_response_end_to_end() {
    let raw = b"\x1b]11;rgb:ffff/0000/0000\x1b\\";
    let c = parse_response(raw).unwrap();
    assert_eq!(c, RgbColor { red: 255, green: 0, blue: 0 });
    assert_eq!(c.to_hex(), "#ff0000");
    // HSP of pure red is 255 * sqrt(299/1000), about 139.4: above the
    // threshold of 255/2, so light.
    assert_eq!(hsp(c), BackgroundStyle::Light);
}

#[test]
fn blue_response_end_to_end() {
    let raw = b"\x1b]11;rgb:0000/0000/ffff\x1b\\";
    let c = parse_response(raw).unwrap();
    assert_eq!(c, RgbColor { red: 0, green: 0, blue: 255 });
    assert_eq!(c.to_hex(), "#0000ff");
    // HSP of pure blue is 255 * sqrt(114/1000), about 86.1: dark.
    assert_eq!(hsp(c), BackgroundStyle::Dark);
}

#[test]
fn white_response_end_to_end() {
    let raw = b"\x1b]11;rgb:ffff/ffff/ffff\x1b\\";
    let c = parse_response(raw).unwrap();
    assert_eq!(c, RgbColor { red: 255, green: 255, blue: 255 });
    assert_eq!(c.to_hex(), "#ffffff");
    assert_eq!(hsp(c), BackgroundStyle::Light);
}

#[test]
fn black_is_dark() {
    let c = RgbColor { red: 0, green: 0, blue: 0 };
    assert_eq!(c.to_hex(), "#000000");
    assert_eq!(hsp(c), BackgroundStyle::Dark);
}

#[test]
fn gray_just_below_threshold_is_dark() {
    let c = RgbColor { red: 127, green: 127, blue: 127 };
    assert_eq!(hsp(c), BackgroundStyle::Dark);
}

#[test]
fn gray_just_above_threshold_is_light() {
    let c = RgbColor { red: 128, green: 128, blue: 128 };
    assert_eq!(hsp(c), BackgroundStyle::Light);
}

#[test]
fn classification_is_deterministic() {
    for (r, g, b) in [(0u8, 0u8, 0u8), (255, 255, 255), (127, 127, 127), (12, 200, 99)] {
        let c = RgbColor { red: r, green: g, blue: b };
        let first = hsp(c);
        let second = hsp(c);
        assert_eq!(first, second);
        assert!(matches!(first, BackgroundStyle::Light | BackgroundStyle::Dark));
    }
}

#[test]
fn non_hex_segment_is_dropped() {
    let raw = b"]11;rgb:zz/00/00";
    match parse_response(raw) {
        Err(DataError::NotEnoughValues) => {}
        other => panic!("expected a not-enough-values error, got {:?}", other.is_ok()),
    }
}

#[test]
fn extra_non_hex_segment_still_parses() {
    let raw = b"]11;rgb:zz/11/22/33";
    let c = parse_response(raw).unwrap();
    assert_eq!(c, RgbColor { red: 0x11, green: 0x22, blue: 0x33 });
}

#[test]
fn missing_prefix_reports_received_text() {
    match parse_response(b"") {
        Err(DataError::UnexpectedResponse { received }) => {
            assert_eq!(received, "");
        }
        other => panic!("expected an unexpected-response error, got {:?}", other.is_ok()),
    }
    match parse_response(b"hello") {
        Err(DataError::UnexpectedResponse { received }) => {
            assert_eq!(received, "hello");
        }
        other => panic!("expected an unexpected-response error, got {:?}", other.is_ok()),
    }
}

#[test]
fn unexpected_response_message_quotes_text() {
    let err = parse_response(b"nope").unwrap_err();
    let m = err.message();
    assert_eq!(m, "terminal result does not match (got: \"nope\")");
    assert!(m.contains("nope"));
}

#[test]
fn not_enough_values_message() {
    let err = parse_response(b"]11;rgb:ff/ff").unwrap_err();
    assert_eq!(err.message(), "not enough values for r, g, b");
}

#[test]
fn control_bytes_are_stripped_before_parsing() {
    let raw = b"\x1b]11;rgb:ff\x07ff/0000/0000\x1b\\";
    let c = parse_response(raw).unwrap();
    assert_eq!(c, RgbColor { red: 255, green: 0, blue: 0 });
}

#[test]
fn non_ascii_bytes_are_stripped_before_parsing() {
    let raw = [
        0x9bu8, 0x5d, 0x31, 0x31, 0x3b, 0x72, 0x67, 0x62, 0x3a, 0x66, 0x66, 0x2f, 0x66, 0x66,
        0x2f, 0x66, 0x66,
    ];
    let c = parse_response(&raw).unwrap();
    assert_eq!(c, RgbColor { red: 0xff, green: 0xff, blue: 0xff });
}

#[test]
fn stripped_text_is_reported_verbatim() {
    match parse_response(b"a\x01b\x02c") {
        Err(DataError::UnexpectedResponse { received }) => {
            assert_eq!(received, "abc");
        }
        other => panic!("expected an unexpected-response error, got {:?}", other.is_ok()),
    }
}

#[test]
fn sixteen_bit_channels_keep_low_byte_only() {
    let raw = b"]11;rgb:1234/abcd/00ff";
    let c = parse_response(raw).unwrap();
    assert_eq!(c, RgbColor { red: 0x34, green: 0xcd, blue: 0xff });
    assert_eq!(c.to_hex(), "#34cdff");
}

#[test]
fn one_digit_channels_parse() {
    let raw = b"]11;rgb:f/f/f";
    let c = parse_response(raw).unwrap();
    assert_eq!(c, RgbColor { red: 0x0f, green: 0x0f, blue: 0x0f });
    assert_eq!(c.to_hex(), "#0f0f0f");
}

#[test]
fn uppercase_hex_digits_parse() {
    let raw = b"]11;rgb:FFFF/AbCd/0E0E";
    let c = parse_response(raw).unwrap();
    assert_eq!(c, RgbColor { red: 0xff, green: 0xcd, blue: 0x0e });
}

#[test]
fn overflowing_segment_is_dropped() {
    let raw = b"]11;rgb:10000/00/00";
    match parse_response(raw) {
        Err(DataError::NotEnoughValues) => {}
        other => panic!("expected a not-enough-values error, got {:?}", other.is_ok()),
    }
}

#[test]
fn leading_zeros_do_not_overflow() {
    let raw = b"]11;rgb:0000ffff/00/00";
    let c = parse_response(raw).unwrap();
    assert_eq!(c, RgbColor { red: 0xff, green: 0, blue: 0 });
}

#[test]
fn empty_segments_are_dropped() {
    let raw = b"]11;rgb://00";
    match parse_response(raw) {
        Err(DataError::NotEnoughValues) => {}
        other => panic!("expected a not-enough-values error, got {:?}", other.is_ok()),
    }
}

#[test]
fn extra_segments_beyond_three_are_ignored() {
    let raw = b"]11;rgb:11/22/33/44";
    let c = parse_response(raw).unwrap();
    assert_eq!(c, RgbColor { red: 0x11, green: 0x22, blue: 0x33 });
}

#[test]
fn plain_query_bytes() {
    let q = query_sequence(false);
    assert_eq!(q, b"\x1b]11;?\x1b\\".to_vec());
}

#[test]
fn passthrough_query_bytes() {
    let q = query_sequence(true);
    assert_eq!(q, b"\x1bPtmux;\x1b\x1b]11;?\x1b\x1b\\\x1b\\".to_vec());
}

#[test]
fn style_from_color_matches_hsp() {
    for (r, g, b) in [(0u8, 0u8, 0u8), (255, 255, 255), (90, 120, 30)] {
        let c = RgbColor { red: r, green: g, blue: b };
        assert_eq!(BackgroundStyle::from(c), hsp(c));
    }
}

#[test]
fn style_text_tokens() {
    assert_eq!(BackgroundStyle::Light.to_text(), "light");
    assert_eq!(BackgroundStyle::Dark.to_text(), "dark");
    assert_eq!(BackgroundStyle::Unknown.to_text(), "unknown");
}

#[test]
fn default_color_is_black() {
    let c = RgbColor::default();
    assert_eq!(c, RgbColor { red: 0, green: 0, blue: 0 });
}

#[test]
fn lone_trailing_backslash_is_dropped() {
    let raw = b"]11;rgb:11/22/33\\";
    let c = parse_response(raw).unwrap();
    assert_eq!(c, RgbColor { red: 0x11, green: 0x22, blue: 0x33 });
}

#[test]
fn bel_terminated_response_parses() {
    let raw = b"\x1b]11;rgb:1c1c/1c1c/1c1c\x07";
    let c = parse_response(raw).unwrap();
    assert_eq!(c, RgbColor { red: 0x1c, green: 0x1c, blue: 0x1c });
    assert_eq!(hsp(c), BackgroundStyle::Dark);
}

#[test]
fn prefix_without_segments_fails() {
    match parse_response(b"]11;rgb:") {
        Err(DataError::NotEnoughValues) => {}
        other => panic!("expected a not-enough-values error, got {:?}", other.is_ok()),
    }
}

#[test]
fn empty_input_message_quotes_empty_text() {
    let err = parse_response(b"").unwrap_err();
    assert_eq!(err.message(), "terminal result does not match (got: \"\")");
}

#[test]
fn green_dominates_brightness() {
    let green = RgbColor { red: 0, green: 200, blue: 0 };
    let blue = RgbColor { red: 0, green: 0, blue: 200 };
    assert_eq!(hsp(green), BackgroundStyle::Light);
    assert_eq!(hsp(blue), BackgroundStyle::Dark);
}
