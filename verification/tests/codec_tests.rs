use base64::Engine as _;
use typst_lib::codec::{
    decode_images, decode_templates, encode_image_entry, encode_template_bundle, image_round_trip,
    template_round_trip, BundleErrorReason, BundleKind,
};

fn b64(bytes: &[u8]) -> String {
    base64::engine::general_purpose::STANDARD.encode(bytes)
}

#[test]
fn decode_images_single_entry() {
    let raw = format!("logo.png-{}", b64(b"hello"));
    let bundle = decode_images(&raw).unwrap();
    assert_eq!(bundle.names.len(), 1);
    assert_eq!(bundle.names[0], "logo.png");
    assert_eq!(bundle.items[0], b"hello".to_vec());
    assert_eq!(bundle.resolve("logo.png").unwrap(), &b"hello".to_vec());
}

#[test]
fn decode_images_multiple_entries() {
    let raw = format!("a.png-{} b.jpg-{}\nc.gif-{}", b64(b"A"), b64(b"BB"), b64(b"CCC"));
    let bundle = decode_images(&raw).unwrap();
    assert_eq!(bundle.names, vec!["a.png", "b.jpg", "c.gif"]);
    assert_eq!(bundle.resolve("b.jpg").unwrap(), &b"BB".to_vec());
}

#[test]
fn decode_images_duplicate_name_shadows() {
    let raw = format!("x-{} x-{}", b64(b"old"), b64(b"new"));
    let bundle = decode_images(&raw).unwrap();
    assert_eq!(bundle.names.len(), 2);
    assert_eq!(bundle.resolve("x").unwrap(), &b"new".to_vec());
}

#[test]
fn decode_images_sentinel_and_empty_are_empty_bundles() {
    for raw in ["empty", ""] {
        let bundle = decode_images(raw).unwrap();
        assert_eq!(bundle.names.len(), 0);
        let err = bundle.resolve("anything.png").unwrap_err();
        assert_eq!(err.path, "anything.png");
    }
}

#[test]
fn decode_images_missing_separator_is_reported() {
    let raw = format!("ok-{} noseparator", b64(b"fine"));
    let err = decode_images(&raw).unwrap_err();
    assert_eq!(err.kind, BundleKind::Image);
    assert_eq!(err.index, 1);
    assert_eq!(err.reason, BundleErrorReason::MissingSeparator);
}

#[test]
fn decode_images_malformed_base64_is_reported() {
    let err = decode_images("bad.png-%%%%").unwrap_err();
    assert_eq!(err.kind, BundleKind::Image);
    assert_eq!(err.index, 0);
    assert_eq!(err.reason, BundleErrorReason::MalformedBase64);
}

#[test]
fn decode_images_splits_name_at_first_dash() {
    // the first `-` ends the name, so a dashed name swallows the payload
    let bundle = decode_images(&format!("a-{}", b64(b"p"))).unwrap();
    assert_eq!(bundle.names[0], "a");
    let err = decode_images(&format!("my-img.png-{}", b64(b"p"))).unwrap_err();
    assert_eq!(err.reason, BundleErrorReason::MalformedBase64);
}

#[test]
fn encode_image_entry_matches_wire_format() {
    let entry = encode_image_entry("pic.png", &b"Man".to_vec());
    assert_eq!(entry, "pic.png-TWFu");
}

#[test]
fn image_round_trip_law_on_concrete_values() {
    let payload: Vec<u8> = vec![0, 1, 2, 250, 255];
    let back = image_round_trip("img.png", &payload);
    assert_eq!(back, payload);
}

#[test]
fn decode_templates_single_entry() {
    let bundle = decode_templates("conf.typ@@@#let x = 1").unwrap();
    assert_eq!(bundle.names, vec!["conf.typ"]);
    assert_eq!(bundle.resolve("conf.typ").unwrap().as_str(), "#let x = 1");
}

#[test]
fn decode_templates_multiple_entries() {
    let bundle = decode_templates("a.typ@@@alpha|||b.typ@@@beta").unwrap();
    assert_eq!(bundle.names, vec!["a.typ", "b.typ"]);
    assert_eq!(bundle.resolve("a.typ").unwrap().as_str(), "alpha");
    assert_eq!(bundle.resolve("b.typ").unwrap().as_str(), "beta");
}

#[test]
fn decode_templates_sentinel_and_empty_are_empty_bundles() {
    for raw in ["empty", ""] {
        let bundle = decode_templates(raw).unwrap();
        assert_eq!(bundle.names.len(), 0);
        let err = bundle.resolve("conf.typ").unwrap_err();
        assert_eq!(err.path, "conf.typ");
    }
}

#[test]
fn decode_templates_missing_separator_is_reported() {
    let err = decode_templates("a.typ@@@ok|||broken").unwrap_err();
    assert_eq!(err.kind, BundleKind::Template);
    assert_eq!(err.index, 1);
    assert_eq!(err.reason, BundleErrorReason::MissingSeparator);
}

#[test]
fn decode_templates_splits_at_first_name_separator() {
    // only the first `@@@` separates; later ones stay in the text
    let bundle = decode_templates("a.typ@@@x@@@y").unwrap();
    assert_eq!(bundle.resolve("a.typ").unwrap().as_str(), "x@@@y");
}

#[test]
fn encode_template_bundle_matches_wire_format() {
    let pairs = vec![
        ("a.typ".to_string(), "alpha".to_string()),
        ("b.typ".to_string(), "beta".to_string()),
    ];
    assert_eq!(encode_template_bundle(&pairs), "a.typ@@@alpha|||b.typ@@@beta");
}

#[test]
fn template_round_trip_law_on_concrete_values() {
    let pairs = vec![
        ("one.typ".to_string(), "#let a = 1".to_string()),
        ("two.typ".to_string(), "#let b = 2".to_string()),
        ("three.typ".to_string(), "".to_string()),
    ];
    assert_eq!(template_round_trip(&pairs, 0), "#let a = 1");
    assert_eq!(template_round_trip(&pairs, 1), "#let b = 2");
    assert_eq!(template_round_trip(&pairs, 2), "");
}

#[test]
fn resolve_missing_path_reports_that_path() {
    let raw = format!("present.png-{}", b64(b"data"));
    let bundle = decode_images(&raw).unwrap();
    let err = bundle.resolve("absent.png").unwrap_err();
    assert_eq!(err.path, "absent.png");
}
