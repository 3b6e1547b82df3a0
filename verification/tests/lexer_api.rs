//! Tests of the individual lexer rules.

use hls::lexer::{
    comment, duration_name, enum_string, float, hex_sequence, integer, quoted_string, resolution,
    tag_name,
};
use hls::Resolution;

#[test]
fn parser_parses_header_tag() {
    let input = "#EXTM3U";
    let (name, end) = tag_name(input, 0).expect("tag name");
    assert_eq!(name, "EXTM3U");
    assert_eq!(end, input.len());
}

#[test]
fn parser_parses_comment() {
    let input = "# EXTM3U\r\n";
    assert_eq!(comment(input, 0), Some(input.len()));
}

#[test]
fn parser_parses_quoted_string() {
    let (s, end) = quoted_string(r#""""#, 0).expect("empty quoted string");
    assert_eq!(s, "");
    assert_eq!(end, 2);
    let (s, end) = quoted_string(r#""cool input""#, 0).expect("quoted string");
    assert_eq!(s, "cool input");
    assert_eq!(end, 12);
}

#[test]
fn parses_duration_name() {
    // The EXTINF argument form: <float>,[name]; the name is consumed and
    // dropped, and the trailing comma is required.
    let (f, end) = duration_name("12.345,", 0).expect("duration");
    assert_eq!(f.text.parse::<f64>().unwrap(), 12.345);
    assert_eq!(end, 7);
    let (f, end) = duration_name("12.345,SegmentName", 0).expect("duration");
    assert_eq!(f.text.parse::<f64>().unwrap(), 12.345);
    assert_eq!(end, 18);
    let (f, end) = duration_name("12.345,The rain in Spain", 0).expect("duration");
    assert_eq!(f.text.parse::<f64>().unwrap(), 12.345);
    assert_eq!(end, 24);
    assert!(duration_name("12.345", 0).is_none());
}

#[test]
fn parser_parses_decimal_integer() {
    assert_eq!(integer("42", 0), Some((42, 2)));
    assert_eq!(integer("0", 0), Some((0, 1)));
    // A leading zero ends the integer: `007` parses as `0` leaving `07`.
    assert_eq!(integer("007", 0), Some((0, 1)));
    assert_eq!(integer("0123", 0), Some((0, 1)));
    // Overflowing u64 fails.
    assert!(integer("184467440737095516151", 0).is_none());
    assert!(integer("-1", 0).is_none());
    assert!(integer("", 0).is_none());
}

#[test]
fn parser_parses_float() {
    let cases: Vec<(&str, f64)> = vec![
        (".42", 0.42),
        ("0.0", 0.0),
        (".0", 0.0),
        ("0.07", 0.07),
        ("1.23", 1.23),
        ("-1.23", -1.23),
        ("-.42", -0.42),
    ];
    for (input, expected) in cases {
        let (f, end) = float(input, 0).expect("float");
        assert_eq!(f.text, input);
        assert_eq!(f.text.parse::<f64>().unwrap(), expected);
        assert_eq!(end, input.len());
    }
    assert!(integer("", 0).is_none());
}

#[test]
fn parser_parses_hex_sequence() {
    assert_eq!(hex_sequence("0x00", 0), Some(("00".to_string(), 4)));
    assert_eq!(hex_sequence("0x42", 0), Some(("42".to_string(), 4)));
    assert_eq!(hex_sequence("0X42", 0), Some(("42".to_string(), 4)));
    assert_eq!(hex_sequence("0x000102", 0), Some(("000102".to_string(), 8)));
}

#[test]
fn parser_parses_enum_string() {
    assert_eq!(enum_string("BANANA", 0), Some(("BANANA".to_string(), 6)));
    assert_eq!(enum_string("AES-128", 0), Some(("AES-128".to_string(), 7)));
    assert!(enum_string("999", 0).is_none());
}

#[test]
fn parser_parses_resolution() {
    assert_eq!(
        resolution("1024x768", 0),
        Some((Resolution { width: 1024, height: 768 }, 8))
    );
    assert_eq!(resolution("0x0", 0), Some((Resolution { width: 0, height: 0 }, 3)));
}

#[test]
fn resolution_round_trips_through_format() {
    // The resolution round trip on concrete values: parsing "{w}x{h}"
    // gives back w and h.
    for (w, h) in [(1920u64, 1080u64), (0, 0), (1, 2), (u64::MAX, u64::MAX)] {
        let text = format!("{}x{}", w, h);
        assert_eq!(
            resolution(&text, 0),
            Some((Resolution { width: w, height: h }, text.len()))
        );
    }
}

#[test]
fn integer_consumes_greedily_from_nonzero() {
    assert_eq!(integer("184467440737095516", 0), Some((184467440737095516, 18)));
    assert_eq!(integer("10x20", 0), Some((10, 2)));
}
