use base64::Engine as _;
use typst_lib::source::{decode_main_source, decode_utf8_text, SourceError};
use typst_lib::strutil::usize_to_string;
use typst_lib::world::{build_world, BuildError};

fn b64(bytes: &[u8]) -> String {
    base64::engine::general_purpose::STANDARD.encode(bytes)
}

#[test]
fn decode_main_source_plain_text() {
    let text = decode_main_source(&b64("= Heading\nBody".as_bytes())).unwrap();
    assert_eq!(text, "= Heading\nBody");
}

#[test]
fn decode_main_source_strips_byte_order_mark() {
    let mut bytes = vec![0xef, 0xbb, 0xbf];
    bytes.extend_from_slice("hello".as_bytes());
    let text = decode_main_source(&b64(&bytes)).unwrap();
    assert_eq!(text, "hello");
}

#[test]
fn decode_main_source_rejects_malformed_base64() {
    let err = decode_main_source("not base64!!").unwrap_err();
    assert_eq!(err, SourceError::MalformedBase64);
}

#[test]
fn decode_main_source_rejects_invalid_utf8() {
    let err = decode_main_source(&b64(&[0xff, 0xfe, 0x00])).unwrap_err();
    assert_eq!(err, SourceError::InvalidUtf8);
}

#[test]
fn decode_utf8_text_without_byte_order_mark_keeps_bytes() {
    let text = decode_utf8_text("caf\u{e9}".as_bytes().to_vec()).unwrap();
    assert_eq!(text, "caf\u{e9}");
    assert!(decode_utf8_text(vec![0xff]).is_none());
}

#[test]
fn usize_to_string_renders_decimal() {
    assert_eq!(usize_to_string(0), "0");
    assert_eq!(usize_to_string(7), "7");
    assert_eq!(usize_to_string(1234567890), "1234567890");
}

#[test]
fn build_world_decodes_all_three_inputs() {
    let source = b64("#import \"conf.typ\": conf".as_bytes());
    let images = format!("pic.png-{}", b64(b"IMG"));
    let templates = "conf.typ@@@#let conf = 1";
    let world = build_world(&source, &images, templates).unwrap();
    assert_eq!(world.main_text, "#import \"conf.typ\": conf");
    assert_eq!(world.resolve_image("pic.png").unwrap(), &b"IMG".to_vec());
    assert_eq!(world.resolve_template("conf.typ").unwrap().as_str(), "#let conf = 1");
    let miss = world.resolve_image("other.png").unwrap_err();
    assert_eq!(miss.path, "other.png");
    let miss = world.resolve_template("other.typ").unwrap_err();
    assert_eq!(miss.path, "other.typ");
}

#[test]
fn build_world_sentinel_inputs_resolve_nothing() {
    let source = b64(b"hello");
    let world = build_world(&source, "empty", "").unwrap();
    assert_eq!(world.images.names.len(), 0);
    assert_eq!(world.templates.names.len(), 0);
    assert!(world.resolve_image("any").is_err());
    assert!(world.resolve_template("any").is_err());
}

#[test]
fn build_world_reports_bundle_errors() {
    let source = b64(b"hello");
    match build_world(&source, "broken", "").unwrap_err() {
        BuildError::Bundle(e) => assert_eq!(e.index, 0),
        BuildError::Source(_) => panic!("wrong error kind"),
    }
    match build_world("%%%", "empty", "").unwrap_err() {
        BuildError::Source(e) => assert_eq!(e, SourceError::MalformedBase64),
        BuildError::Bundle(_) => panic!("wrong error kind"),
    }
}

#[test]
fn today_ymd_shifts_the_utc_date_by_whole_hours() {
    // the epoch begins 1970-01-01 00:00 UTC
    assert_eq!(typst_lib::clock::today_ymd(0, Some(0)), Some((1970, 1, 1)));
    assert_eq!(typst_lib::clock::today_ymd(0, Some(26)), Some((1970, 1, 2)));
    assert_eq!(typst_lib::clock::today_ymd(0, Some(-1)), Some((1969, 12, 31)));
}

#[test]
fn today_ymd_local_date_is_a_calendar_date() {
    let (_, month, day) = typst_lib::clock::today_ymd(0, None).unwrap();
    assert!((1..=12).contains(&month));
    assert!((1..=31).contains(&day));
}
