//! The narrow interface to the external compilation engine's output side: the
//! compiled document and its page frames are opaque values carried through,
//! and the engine's serializers are called, never reimplemented.

use vstd::prelude::*;

verus! {

#[verifier::external_type_specification]
#[verifier::external_body]
pub struct ExDocument(typst::model::Document);

#[verifier::external_type_specification]
#[verifier::external_body]
pub struct ExFrame(typst::layout::Frame);

/// What the engine's PDF exporter returns for a document, under an automatic
/// identifier and no timestamp: a function of the document alone.
pub uninterp spec fn pdf_bytes_of(document: typst::model::Document) -> Seq<u8>;

/// The document's finished page frames, in page order.
pub uninterp spec fn pages_of(document: typst::model::Document) -> Seq<typst::layout::Frame>;

/// What the engine's SVG serializer returns for one page frame, as UTF-8
/// bytes: a function of the frame alone.
pub uninterp spec fn svg_of(frame: typst::layout::Frame) -> Seq<u8>;

/// Relies on `typst_pdf::pdf` to serialize a compiled document to its native
/// PDF byte form, with an automatic document identifier and no timestamp; its
/// output depends on the document alone.
#[verifier::external_body]
pub(crate) fn pdf_bytes(document: &typst::model::Document) -> (r: Vec<u8>)
    ensures
        r@ == pdf_bytes_of(*document),
{
    typst_pdf::pdf(document, typst::foundations::Smart::Auto, None)
}

/// Relies on the document's public `pages` field: one frame per finished page,
/// in page order.
#[verifier::external_body]
pub(crate) fn doc_pages(document: &typst::model::Document) -> (r: Vec<typst::layout::Frame>)
    ensures
        r@ == pages_of(*document),
{
    document.pages.iter().map(|page| page.frame.clone()).collect()
}

/// Relies on `typst_svg::svg` to serialize one page frame to SVG text,
/// returned as its UTF-8 bytes; its output depends on the frame alone.
#[verifier::external_body]
pub(crate) fn svg_page_bytes(frame: &typst::layout::Frame) -> (r: Vec<u8>)
    ensures
        r@ == svg_of(*frame),
{
    typst_svg::svg(frame).into_bytes()
}

} // verus!
