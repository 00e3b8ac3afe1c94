use base64::Engine as _;
use typst_lib::exports::{
    encode_pdf_bytes, export_image, export_pdf, export_svg, failure_message, parse_format,
    ImageData, ImageExportFormat, OutputFormat, PageData,
};
use typst_lib::exports::image_data_json;

#[test]
fn parse_format_accepts_exactly_the_three_tokens() {
    assert_eq!(parse_format("pdf"), Some(OutputFormat::Pdf));
    assert_eq!(parse_format("png"), Some(OutputFormat::Png));
    assert_eq!(parse_format("svg"), Some(OutputFormat::Svg));
    assert_eq!(parse_format("bmp"), None);
    assert_eq!(parse_format("PDF"), None);
    assert_eq!(parse_format(""), None);
}

#[test]
fn failure_message_carries_the_fixed_prefix() {
    let msg = failure_message("file not found (searched at missing.png)");
    assert!(msg.starts_with("Compilation Failed: "));
    assert_eq!(msg, "Compilation Failed: file not found (searched at missing.png)");
}

#[test]
fn encode_pdf_bytes_is_unpadded_standard_base64() {
    let encoded = encode_pdf_bytes(&b"hello".to_vec());
    assert_eq!(encoded, base64::engine::general_purpose::STANDARD_NO_PAD.encode(b"hello"));
    assert!(!encoded.contains('='));
    assert_eq!(encode_pdf_bytes(&Vec::new()), "");
}

#[test]
fn export_image_builds_the_exact_envelope() {
    let bufs = vec![b"Man".to_vec()];
    let json = export_image(&bufs, ImageExportFormat::Png);
    assert_eq!(json, "{\"name\":\"imageDate\",\"type_\":\"Png\",\"pages\":[{\"number\":0,\"data\":\"TWFu\"}]}");
}

#[test]
fn export_image_pages_are_numbered_in_order() {
    let bufs = vec![b"one".to_vec(), b"two".to_vec()];
    let json = export_image(&bufs, ImageExportFormat::Svg);
    let v: serde_json::Value = serde_json::from_str(&json).unwrap();
    assert_eq!(v["name"], "imageDate");
    assert_eq!(v["type_"], "Svg");
    let pages = v["pages"].as_array().unwrap();
    assert_eq!(pages.len(), 2);
    assert_eq!(pages[0]["number"], 0);
    assert_eq!(pages[1]["number"], 1);
    // page data is padded standard base64, unlike the PDF path
    let data0 = pages[0]["data"].as_str().unwrap();
    let bytes0 = base64::engine::general_purpose::STANDARD.decode(data0).unwrap();
    assert_eq!(bytes0, b"one");
    let data1 = pages[1]["data"].as_str().unwrap();
    let bytes1 = base64::engine::general_purpose::STANDARD.decode(data1).unwrap();
    assert_eq!(bytes1, b"two");
}

#[test]
fn export_image_empty_document_has_empty_page_list() {
    let json = export_image(&Vec::new(), ImageExportFormat::Png);
    let v: serde_json::Value = serde_json::from_str(&json).unwrap();
    assert_eq!(v["pages"].as_array().unwrap().len(), 0);
}

#[test]
fn image_data_json_serializes_constructed_envelopes() {
    let mut d = ImageData::new("imageDate".to_string(), ImageExportFormat::Png);
    d.pages.push(PageData::new(0, "QQ==".to_string()));
    d.pages.push(PageData::new(1, "Qg==".to_string()));
    let v: serde_json::Value = serde_json::from_str(&image_data_json(&d)).unwrap();
    assert_eq!(v["pages"][1]["data"], "Qg==");
}

#[test]
fn export_pdf_yields_base64_of_pdf_bytes() {
    let document = typst::model::Document::default();
    let encoded = export_pdf(&document);
    assert!(!encoded.is_empty());
    let bytes = base64::engine::general_purpose::STANDARD_NO_PAD.decode(&encoded).unwrap();
    assert_eq!(&bytes[..4], b"%PDF");
}

#[test]
fn export_svg_two_pages_yields_two_numbered_entries() {
    let mut document = typst::model::Document::default();
    let size = typst::layout::Size::new(
        typst::layout::Abs::pt(10.0),
        typst::layout::Abs::pt(10.0),
    );
    for number in 1..=2usize {
        document.pages.push(typst::layout::Page {
            frame: typst::layout::Frame::hard(size),
            numbering: None,
            number,
        });
    }
    let json = export_svg(&document);
    let v: serde_json::Value = serde_json::from_str(&json).unwrap();
    assert_eq!(v["type_"], "Svg");
    let pages = v["pages"].as_array().unwrap();
    assert_eq!(pages.len(), 2);
    assert_eq!(pages[0]["number"], 0);
    assert_eq!(pages[1]["number"], 1);
    let svg_bytes = base64::engine::general_purpose::STANDARD
        .decode(pages[0]["data"].as_str().unwrap())
        .unwrap();
    let svg_text = String::from_utf8(svg_bytes).unwrap();
    assert!(svg_text.starts_with("<svg"));
}

#[test]
fn export_png_page_bytes_round_through_the_envelope() {
    let size = typst::layout::Size::new(
        typst::layout::Abs::pt(10.0),
        typst::layout::Abs::pt(10.0),
    );
    let frame = typst::layout::Frame::hard(size);
    let pixmap = typst_render::render(&frame, 2.0, typst::visualize::Color::WHITE);
    let png = pixmap.encode_png().unwrap();
    let json = export_image(&vec![png.clone(), png.clone()], ImageExportFormat::Png);
    let v: serde_json::Value = serde_json::from_str(&json).unwrap();
    assert_eq!(v["type_"], "Png");
    let pages = v["pages"].as_array().unwrap();
    assert_eq!(pages.len(), 2);
    assert_eq!(pages[0]["number"], 0);
    assert_eq!(pages[1]["number"], 1);
    let bytes = base64::engine::general_purpose::STANDARD
        .decode(pages[1]["data"].as_str().unwrap())
        .unwrap();
    assert_eq!(&bytes[..8], &[0x89, b'P', b'N', b'G', 0x0d, 0x0a, 0x1a, 0x0a]);
}
