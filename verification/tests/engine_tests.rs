use base64::Engine as _;
use comemo::Prehashed;
use typst::diag::{FileError, FileResult};
use typst::eval::Tracer;
use typst::foundations::{Bytes, Datetime};
use typst::syntax::{FileId, Source, VirtualPath};
use typst::text::{Font, FontBook};
use typst::Library;
use typst_lib::exports::{export_image, export_pdf, failure_message, ImageExportFormat};
use typst_lib::world::{build_world, SimpleWorld};

struct TestWorld {
    store: SimpleWorld,
    library: Prehashed<Library>,
    book: Prehashed<FontBook>,
}

impl TestWorld {
    fn build(source_text: &str, image_raw: &str, template_raw: &str) -> TestWorld {
        let encoded = base64::engine::general_purpose::STANDARD.encode(source_text.as_bytes());
        let store = build_world(&encoded, image_raw, template_raw).unwrap();
        TestWorld {
            store,
            library: Prehashed::new(Library::default()),
            book: Prehashed::new(FontBook::new()),
        }
    }
}

impl typst::World for TestWorld {
    fn library(&self) -> &Prehashed<Library> {
        &self.library
    }

    fn book(&self) -> &Prehashed<FontBook> {
        &self.book
    }

    fn main(&self) -> Source {
        Source::new(FileId::new(None, VirtualPath::new(".")), self.store.main_text.clone())
    }

    fn source(&self, id: FileId) -> FileResult<Source> {
        let path = id.vpath().as_rootless_path();
        path.to_str()
            .and_then(|p| self.store.resolve_template(p).ok())
            .map(|text| Source::new(id, text.clone()))
            .ok_or_else(|| FileError::NotFound(path.into()))
    }

    fn file(&self, id: FileId) -> FileResult<Bytes> {
        let path = id.vpath().as_rootless_path();
        path.to_str()
            .and_then(|p| self.store.resolve_image(p).ok())
            .map(|bytes| Bytes::from(bytes.clone()))
            .ok_or_else(|| FileError::NotFound(path.into()))
    }

    fn font(&self, _index: usize) -> Option<Font> {
        None
    }

    fn today(&self, _offset: Option<i64>) -> Option<Datetime> {
        None
    }
}

#[test]
fn compile_minimal_document_to_pdf_signature() {
    let world = TestWorld::build("#rect(width: 20pt, height: 20pt)", "empty", "");
    let mut tracer = Tracer::default();
    let document = typst::compile(&world, &mut tracer).unwrap();
    let encoded = export_pdf(&document);
    assert!(!encoded.is_empty());
    let bytes = base64::engine::general_purpose::STANDARD_NO_PAD.decode(&encoded).unwrap();
    assert_eq!(&bytes[..4], b"%PDF");
}

#[test]
fn compile_two_page_document_to_png_pages() {
    let world = TestWorld::build("#rect(width: 4pt, height: 4pt)\n#pagebreak()\n#rect(width: 4pt, height: 4pt)", "empty", "");
    let mut tracer = Tracer::default();
    let document = typst::compile(&world, &mut tracer).unwrap();
    assert_eq!(document.pages.len(), 2);
    let mut bufs: Vec<Vec<u8>> = Vec::new();
    for page in &document.pages {
        let pixmap = typst_render::render(&page.frame, 144.0 / 72.0, typst::visualize::Color::WHITE);
        bufs.push(pixmap.encode_png().unwrap());
    }
    let json = export_image(&bufs, ImageExportFormat::Png);
    let v: serde_json::Value = serde_json::from_str(&json).unwrap();
    let pages = v["pages"].as_array().unwrap();
    assert_eq!(pages.len(), 2);
    assert_eq!(pages[0]["number"], 0);
    assert_eq!(pages[1]["number"], 1);
    for page in pages {
        let bytes = base64::engine::general_purpose::STANDARD
            .decode(page["data"].as_str().unwrap())
            .unwrap();
        assert_eq!(&bytes[..8], &[0x89, b'P', b'N', b'G', 0x0d, 0x0a, 0x1a, 0x0a]);
    }
}

#[test]
fn missing_image_fails_naming_the_path() {
    let world = TestWorld::build("#image(\"missing.png\")", "empty", "");
    let mut tracer = Tracer::default();
    let errors = typst::compile(&world, &mut tracer).unwrap_err();
    let diagnostic = format!("{errors:?}");
    assert!(diagnostic.contains("missing.png"));
    let message = failure_message(&diagnostic);
    assert!(message.starts_with("Compilation Failed: "));
    assert!(message.contains("missing.png"));
}

#[test]
fn template_import_is_resolved_from_the_bundle() {
    let world = TestWorld::build(
        "#import \"conf.typ\": side\n#rect(width: side, height: side)",
        "empty",
        "conf.typ@@@#let side = 12pt",
    );
    let mut tracer = Tracer::default();
    let document = typst::compile(&world, &mut tracer).unwrap();
    assert_eq!(document.pages.len(), 1);
}
