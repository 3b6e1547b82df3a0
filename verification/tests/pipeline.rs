//! End-to-end tests of the lexer, token stream and typed decoder.

use hls::decode::{decode, from_str};
use hls::error::Error;
use hls::hex::{hex_decode, hex_encode, HexSequence};
use hls::lexer::{all_tags, Manifest, RawLine, TagArgs};
use hls::manifest::{EncryptionMethod, Line, PlaylistType, Tag};
use hls::nodes::Node;
use hls::playlist::{MasterManfiest, MediaManifest, ParseError};

const SIMPLE_VOD: &str = "#EXTM3U\n#EXT-X-VERSION:3\n#EXT-X-TARGETDURATION:10\n#EXTINF:9.009,\nhttp://h/a.ts\n#EXTINF:9.009,\nhttp://h/b.ts\n#EXT-X-ENDLIST\n";

#[test]
fn simple_vod_decodes() {
    let lines = from_str(SIMPLE_VOD).expect("manifest parses");
    assert_eq!(lines.len(), 8);
    assert!(matches!(lines[0], Line::Tag(Tag::M3u)));
    assert!(matches!(lines[1], Line::Tag(Tag::Version(3))));
    assert!(matches!(lines[2], Line::Tag(Tag::TargetDuration(10))));
    match &lines[3] {
        Line::Tag(Tag::Inf(d)) => assert_eq!(d.text, "9.009"),
        other => panic!("expected EXTINF, got {:?}", other),
    }
    assert_eq!(lines[4], Line::Uri("http://h/a.ts".to_string()));
    assert_eq!(lines[6], Line::Uri("http://h/b.ts".to_string()));
    assert!(matches!(lines[7], Line::Tag(Tag::EndList)));
}

#[test]
fn lex_round_trips_a_rendered_line() {
    // The round-trip law on concrete values: the serialised form of a
    // parsed line lexes back to the same line.
    let text = "#EXT-X-KEY:METHOD=AES-128,URI=\"k1\",IV=0x0102\n";
    let m = Manifest::parse(text).expect("line parses");
    let lines = m.lines();
    assert_eq!(lines.len(), 1);
    match &lines[0] {
        RawLine::Tag { name, args } => {
            assert_eq!(name, "EXT-X-KEY");
            match args {
                TagArgs::Attributes(attrs) => {
                    assert_eq!(attrs.len(), 3);
                    assert_eq!(attrs[0].name, "METHOD");
                },
                other => panic!("expected attributes, got {:?}", other),
            }
        },
        other => panic!("expected a tag, got {:?}", other),
    }
    // re-render by hand and re-lex: same line
    let m2 = Manifest::parse(text).expect("re-lex");
    assert_eq!(m2.lines(), lines);
}

#[test]
fn unknown_tag_is_preserved() {
    // An unknown tag binds to Unknown and is never fatal.  The full
    // on-wire name after the `#` is preserved.
    let lines = from_str("#EXT-X-NEW-FEATURE:FOO=1\n").expect("parses");
    assert_eq!(lines.len(), 1);
    match &lines[0] {
        Line::Tag(Tag::Unknown { name, args }) => {
            assert_eq!(name, "EXT-X-NEW-FEATURE");
            match args {
                TagArgs::Attributes(attrs) => {
                    assert_eq!(attrs.len(), 1);
                    assert_eq!(attrs[0].name, "FOO");
                },
                other => panic!("expected attributes, got {:?}", other),
            }
        },
        other => panic!("expected unknown tag, got {:?}", other),
    }
}

#[test]
fn key_attributes_decode_with_enums_and_bytes() {
    let lines = from_str(
        "#EXTM3U\n#EXT-X-KEY:METHOD=AES-128,URI=\"k1\",IV=0x0102,KEYFORMAT=\"identity\"\n",
    )
    .expect("parses");
    match &lines[1] {
        Line::Tag(Tag::Key(k)) => {
            assert_eq!(k.method, EncryptionMethod::Aes128);
            assert_eq!(k.uri.as_deref(), Some("k1"));
            assert_eq!(k.iv.as_deref(), Some(&[1u8, 2u8][..]));
            assert_eq!(k.keyformat.as_deref(), Some("identity"));
            assert_eq!(k.keyformatversions, None);
        },
        other => panic!("expected a key tag, got {:?}", other),
    }
}

#[test]
fn playlist_type_decodes_as_enum() {
    let lines = from_str("#EXTM3U\n#EXT-X-PLAYLIST-TYPE:VOD\n").expect("parses");
    assert!(matches!(lines[1], Line::Tag(Tag::PlaylistType(PlaylistType::Vod))));
    let lines = from_str("#EXTM3U\n#EXT-X-PLAYLIST-TYPE:EVENT\n").expect("parses");
    assert!(matches!(lines[1], Line::Tag(Tag::PlaylistType(PlaylistType::Event))));
}

#[test]
fn syntax_error_on_unconsumed_input() {
    // A tag line without a line ending leaves input unconsumed.
    assert_eq!(from_str("#EXTM3U"), Err(Error::Syntax));
    assert_eq!(from_str(""), Err(Error::Syntax));
}

#[test]
fn invalid_hex_in_iv_is_rejected() {
    // Odd-length hex decodes to InvalidHex when the schema asks for bytes.
    let r = from_str("#EXTM3U\n#EXT-X-KEY:METHOD=NONE,IV=0x123\n");
    assert_eq!(r, Err(Error::InvalidHex));
}

#[test]
fn bad_tag_arguments_are_a_message_error() {
    // A known tag with the wrong argument shape is a schema mismatch.
    let r = from_str("#EXTM3U\n#EXT-X-VERSION:FOO=1\n");
    assert!(matches!(r, Err(Error::Message(_))));
}

#[test]
fn truncated_node_stream_is_unexpected_eof() {
    let nodes = vec![Node::ManifestStart, Node::TagStart, Node::TagName("EXTM3U".to_string())];
    assert_eq!(decode(&nodes), Err(Error::UnexpectedEof));
}

#[test]
fn hex_round_trip() {
    // The hex round trip on concrete values.
    let bytes: Vec<u8> = vec![0, 1, 2, 0xfe, 0xff, 0x42];
    let text = hex_encode(&bytes);
    assert_eq!(text, "000102feff42");
    assert_eq!(hex_decode(&text), Ok(bytes));
    // odd length fails
    assert_eq!(hex_decode("123"), Err(Error::InvalidHex));
    assert_eq!(HexSequence::new("zz".to_string()).bytes(), Err(Error::InvalidHex));
    assert_eq!(HexSequence::new("0102".to_string()).bytes(), Ok(vec![1u8, 2u8]));
}

#[test]
fn media_manifest_from_ast() {
    let lines = from_str(SIMPLE_VOD).expect("parses");
    let m = MediaManifest::from_ast(&lines).expect("assembles");
    assert_eq!(m.version, 3);
    assert_eq!(m.target_duration, 10);
    assert!(m.end_list);
    assert_eq!(m.segments.len(), 2);
    assert_eq!(m.segments[0].uri, "http://h/a.ts");
    assert_eq!(m.segments[0].duration.text, "9.009");
    assert_eq!(m.segments[1].uri, "http://h/b.ts");
}

#[test]
fn media_manifest_requires_header_and_target_duration() {
    let lines = from_str("#EXT-X-VERSION:3\n").expect("parses");
    assert_eq!(MediaManifest::from_ast(&lines), Err(ParseError::MissingHeader));
    let lines = from_str("#EXTM3U\n#EXT-X-VERSION:3\n").expect("parses");
    assert_eq!(
        MediaManifest::from_ast(&lines),
        Err(ParseError::MissingAttribute("TARGETDURATION".to_string()))
    );
    let lines = from_str("#EXTM3U\n#EXTM3U\n").expect("parses");
    assert_eq!(MediaManifest::from_ast(&lines), Err(ParseError::MultipleHeaders));
}

#[test]
fn media_manifest_segment_without_extinf_fails() {
    let lines = from_str("#EXTM3U\n#EXT-X-TARGETDURATION:10\na.ts\n").expect("parses");
    assert_eq!(MediaManifest::from_ast(&lines), Err(ParseError::MissingExtInf));
}

#[test]
fn media_manifest_validates_program_date_time() {
    let good = from_str(
        "#EXTM3U\n#EXT-X-TARGETDURATION:10\n#EXT-X-PROGRAM-DATE-TIME:2010-02-19T14:54:23Z\n#EXTINF:9.0,\na.ts\n",
    )
    .expect("parses");
    let m = MediaManifest::from_ast(&good).expect("assembles");
    assert_eq!(m.segments[0].date_time.as_deref(), Some("2010-02-19T14:54:23Z"));
    let bad = from_str("#EXTM3U\n#EXT-X-TARGETDURATION:10\n#EXT-X-PROGRAM-DATE-TIME:not-a-date\n")
        .expect("parses");
    assert_eq!(
        MediaManifest::from_ast(&bad),
        Err(ParseError::InvalidDateTime("not-a-date".to_string()))
    );
}

#[test]
fn key_rotation_replaces_same_format() {
    // Two keys of the same (default) format: the second replaces the
    // first in the segment context.
    let lines = from_str(
        "#EXTM3U\n#EXT-X-TARGETDURATION:10\n#EXT-X-KEY:METHOD=AES-128,URI=\"k1\"\n#EXT-X-KEY:METHOD=AES-128,URI=\"k2\"\n#EXTINF:9.0,\na.ts\n",
    )
    .expect("parses");
    let m = MediaManifest::from_ast(&lines).expect("assembles");
    assert_eq!(m.segments[0].keys.len(), 1);
    assert_eq!(m.segments[0].keys[0].uri.as_deref(), Some("k2"));
    assert_eq!(m.segments[0].keys[0].key_format, "identity");
    assert_eq!(m.segments[0].keys[0].key_format_versions, "1");
}

#[test]
fn master_manifest_from_ast() {
    let text = "#EXTM3U\n#EXT-X-VERSION:4\n#EXT-X-INDEPENDENT-SEGMENTS\n#EXT-X-MEDIA:TYPE=AUDIO,GROUP-ID=\"aud\",NAME=\"English\",DEFAULT=YES\n#EXT-X-STREAM-INF:BANDWIDTH=1280000,CODECS=\"avc1.4d401f,mp4a.40.2\",RESOLUTION=1280x720\nlow/index.m3u8\n";
    let lines = from_str(text).expect("parses");
    let m = MasterManfiest::from_ast(&lines).expect("assembles");
    assert_eq!(m.version, 4);
    assert!(m.independent_segments);
    assert_eq!(m.audio.len(), 1);
    assert_eq!(m.audio[0].name, "English");
    assert!(m.audio[0].default);
    assert!(!m.audio[0].forced);
    assert_eq!(m.variants.len(), 1);
    let v = &m.variants[0];
    assert_eq!(v.bandwidth, 1280000);
    assert_eq!(v.codecs, vec!["avc1.4d401f".to_string(), "mp4a.40.2".to_string()]);
    let res = v.resolution.expect("resolution");
    assert_eq!(res.width, 1280);
    assert_eq!(res.height, 720);
    assert_eq!(v.uri, "low/index.m3u8");
}

#[test]
fn master_manifest_requires_codecs() {
    let lines =
        from_str("#EXTM3U\n#EXT-X-STREAM-INF:BANDWIDTH=1280000\nlow/index.m3u8\n").expect("parses");
    assert_eq!(
        MasterManfiest::from_ast(&lines),
        Err(ParseError::MissingAttribute("CODECS".to_string()))
    );
}

#[test]
fn node_stream_shape() {
    let m = Manifest::parse("#EXT-X-VERSION:3\nhttp://h/a.ts\n").expect("parses");
    let nodes = m.nodes();
    assert_eq!(nodes.len(), 6);
    assert!(matches!(nodes[0], Node::ManifestStart));
    assert!(matches!(nodes[1], Node::TagStart));
    assert_eq!(nodes[2], Node::TagName("EXT-X-VERSION".to_string()));
    assert_eq!(nodes[3], Node::Integer(3));
    assert_eq!(nodes[4], Node::Uri("http://h/a.ts".to_string()));
    assert!(matches!(nodes[5], Node::ManifestEnd));
}

#[test]
fn blank_lines_and_comments_are_dropped() {
    let input = "\n# a comment\nhttp://h/a.ts\n";
    let (lines, end) = all_tags(input, 0);
    assert_eq!(end, input.len());
    assert_eq!(lines, vec![RawLine::Uri("http://h/a.ts".to_string())]);
}

#[test]
fn map_tag_decodes() {
    let lines =
        from_str("#EXTM3U\n#EXT-X-MAP:URI=\"init.mp4\",BYTERANGE=\"720@0\"\n").expect("parses");
    match &lines[1] {
        Line::Tag(Tag::InitMap(m)) => {
            assert_eq!(m.uri, "init.mp4");
            assert_eq!(m.byterange.as_deref(), Some("720@0"));
        },
        other => panic!("expected a map tag, got {:?}", other),
    }
}

#[test]
fn iframe_stream_inf_decodes() {
    let lines = from_str(
        "#EXTM3U\n#EXT-X-I-FRAME-STREAM-INF:BANDWIDTH=86000,CODECS=\"avc1.4d401f\",URI=\"iframe.m3u8\"\n",
    )
    .expect("parses");
    match &lines[1] {
        Line::Tag(Tag::IFrameStreamInf(v)) => {
            assert_eq!(v.bandwidth, 86000);
            assert_eq!(v.uri, "iframe.m3u8");
        },
        other => panic!("expected an i-frame tag, got {:?}", other),
    }
}

#[test]
fn stream_inf_coerces_resolution_and_frame_rate() {
    // A resolution value becomes its WIDTHxHEIGHT string; an integer
    // frame rate keeps its digits as number text.
    let lines = from_str(
        "#EXTM3U\n#EXT-X-STREAM-INF:BANDWIDTH=1,RESOLUTION=1920x1080,FRAME-RATE=30\nv.m3u8\n",
    )
    .expect("parses");
    match &lines[1] {
        Line::Tag(Tag::StreamInf(v)) => {
            assert_eq!(v.resolution.as_deref(), Some("1920x1080"));
            assert_eq!(v.frame_rate.as_ref().map(|f| f.text.as_str()), Some("30"));
        },
        other => panic!("expected a stream-inf tag, got {:?}", other),
    }
}

#[test]
fn media_tag_requires_its_attributes() {
    // GROUP-ID missing: a schema mismatch, not a crash.
    let r = from_str("#EXTM3U\n#EXT-X-MEDIA:TYPE=AUDIO,NAME=\"English\"\n");
    assert!(matches!(r, Err(Error::Message(_))));
    // unknown attributes within a known tag are skipped
    let lines = from_str(
        "#EXTM3U\n#EXT-X-MEDIA:TYPE=AUDIO,GROUP-ID=\"a\",NAME=\"n\",FUTURE-ATTR=\"x\"\n",
    )
    .expect("parses");
    assert!(matches!(lines[1], Line::Tag(Tag::Media(_))));
}

#[test]
fn integer_boundaries_at_u64_max() {
    assert_eq!(hls::lexer::integer("18446744073709551615", 0), Some((u64::MAX, 20)));
    assert!(hls::lexer::integer("18446744073709551616", 0).is_none());
}

#[test]
fn hex_decode_accepts_both_cases() {
    assert_eq!(hex_decode("FEff"), Ok(vec![0xfe, 0xff]));
}

#[test]
fn enum_attributes_accept_quoted_strings() {
    // An enum value binds from a keyword or from a quoted string.
    let lines = from_str("#EXTM3U\n#EXT-X-KEY:METHOD=\"SAMPLE-AES\",URI=\"k\"\n").expect("parses");
    match &lines[1] {
        Line::Tag(Tag::Key(k)) => assert_eq!(k.method, EncryptionMethod::SampleAes),
        other => panic!("expected a key tag, got {:?}", other),
    }
}
