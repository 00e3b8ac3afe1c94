//! The output encoder: the caller's format token, and the transport encoding
//! of a compiled document — bare unpadded base64 for PDF, a JSON page-list
//! envelope for the paged image formats.

use vstd::prelude::*;
use vstd::string::StrSliceExecFns;
use vstd::string::StringExecFns;

use crate::b64::{b64_encode, b64_encode_nopad, b64_nopad_of, b64_of, is_b64_char};
use crate::engine::{doc_pages, pages_of, pdf_bytes, pdf_bytes_of, svg_of, svg_page_bytes};
use crate::strutil::{dec_str, push_char, usize_to_string};

verus! {

/// The transport format a caller can request.
#[derive(Debug, Copy, Clone, Eq, PartialEq, Ord, PartialOrd, Structural)]
pub enum OutputFormat {
    Pdf,
    Png,
    Svg,
}

/// The two paged image transport formats.
#[derive(Debug, Copy, Clone, Eq, PartialEq, Ord, PartialOrd, Structural)]
pub enum ImageExportFormat {
    Png,
    Svg,
}

/// One transport-encoded page: its zero-based index and base64 data.
pub struct PageData {
    pub number: usize,
    pub data: String,
}

/// The transport envelope for a paged image result.
pub struct ImageData {
    pub name: String,
    pub type_: ImageExportFormat,
    pub pages: Vec<PageData>,
}

impl PageData {
    /// A page entry with the given index and encoded data.
    pub fn new(number: usize, data: String) -> (r: PageData)
        ensures
            r.number == number,
            r.data == data,
    {
        PageData { number, data }
    }
}

impl ImageData {
    /// An envelope for the given format, with no pages yet.
    pub fn new(name: String, type_: ImageExportFormat) -> (r: ImageData)
        ensures
            r.name == name,
            r.type_ == type_,
            r.pages@ == Seq::<PageData>::empty(),
    {
        let r = ImageData { name, type_, pages: Vec::new() };
        proof {
            assert(r.pages@ =~= Seq::<PageData>::empty());
        }
        r
    }
}

/// Reads the caller's format token: exactly `pdf`, `png` or `svg`; anything
/// else is a fatal configuration error, never silently defaulted.
pub fn parse_format(token: &str) -> (r: Option<OutputFormat>)
    ensures
        r == Some(OutputFormat::Pdf) <==> token@ == "pdf"@,
        r == Some(OutputFormat::Png) <==> token@ == "png"@,
        r == Some(OutputFormat::Svg) <==> token@ == "svg"@,
        r is None <==> (token@ != "pdf"@ && token@ != "png"@ && token@ != "svg"@),
{
    proof {
        reveal_strlit("pdf");
        reveal_strlit("png");
        reveal_strlit("svg");
        assert("pdf"@ != "png"@) by {
            assert("pdf"@[1] == 'd');
            assert("png"@[1] == 'n');
        }
        assert("pdf"@ != "svg"@) by {
            assert("pdf"@[0] == 'p');
            assert("svg"@[0] == 's');
        }
        assert("png"@ != "svg"@) by {
            assert("png"@[0] == 'p');
            assert("svg"@[0] == 's');
        }
    }
    let t = token.to_owned();
    if t.eq(&"pdf".to_owned()) {
        Some(OutputFormat::Pdf)
    } else if t.eq(&"png".to_owned()) {
        Some(OutputFormat::Png)
    } else if t.eq(&"svg".to_owned()) {
        Some(OutputFormat::Svg)
    } else {
        None
    }
}

/// The failure envelope: the diagnostic behind the fixed failure prefix, the
/// single channel through which every error leaves an invocation.
pub fn failure_message(diagnostic: &str) -> (r: String)
    ensures
        r@ == "Compilation Failed: "@ + diagnostic@,
{
    let mut s = "Compilation Failed: ".to_owned();
    s.append(diagnostic);
    s
}

/// JSON text of one page object.
pub open spec fn page_json(number: int, data: Seq<char>) -> Seq<char> {
    "{\"number\":"@ + dec_str(number) + ",\"data\":\""@ + data + "\"}"@
}

/// JSON text of a page list, in order, comma-separated.
pub open spec fn pages_json(pages: Seq<(int, Seq<char>)>) -> Seq<char>
    decreases pages.len(),
{
    if pages.len() == 0 {
        Seq::empty()
    } else if pages.len() == 1 {
        page_json(pages[0].0, pages[0].1)
    } else {
        pages_json(pages.drop_last()) + seq![','] + page_json(pages.last().0, pages.last().1)
    }
}

/// The tag the envelope's `type_` field carries.
pub open spec fn format_tag(f: ImageExportFormat) -> Seq<char> {
    match f {
        ImageExportFormat::Png => "Png"@,
        ImageExportFormat::Svg => "Svg"@,
    }
}

/// JSON text of the whole envelope.
pub open spec fn envelope_json(
    name: Seq<char>,
    f: ImageExportFormat,
    pages: Seq<(int, Seq<char>)>,
) -> Seq<char> {
    "{\"name\":\""@ + name + "\",\"type_\":\""@ + format_tag(f) + "\",\"pages\":["@ + pages_json(
        pages,
    ) + "]}"@
}

/// The index/data view of built page entries.
pub open spec fn pages_v(pages: Seq<PageData>) -> Seq<(int, Seq<char>)> {
    pages.map(|i: int, p: PageData| (p.number as int, p.data@))
}

/// Serializes the envelope to its JSON transport text.
pub fn image_data_json(d: &ImageData) -> (r: String)
    ensures
        r@ == envelope_json(d.name@, d.type_, pages_v(d.pages@)),
{
    let mut s = "{\"name\":\"".to_owned();
    s.append(d.name.as_str());
    s.append("\",\"type_\":\"");
    match d.type_ {
        ImageExportFormat::Png => s.append("Png"),
        ImageExportFormat::Svg => s.append("Svg"),
    }
    s.append("\",\"pages\":[");
    let ghost pre = s@;
    let ghost pv = pages_v(d.pages@);
    let n = d.pages.len();
    let mut i: usize = 0;
    proof {
        assert(pv.take(0) =~= Seq::<(int, Seq<char>)>::empty());
        assert(s@ =~= pre + pages_json(pv.take(0)));
    }
    while i < n
        invariant
            0 <= i <= n,
            n == d.pages@.len(),
            pv == pages_v(d.pages@),
            pv.len() == n,
            s@ == pre + pages_json(pv.take(i as int)),
        decreases n - i,
    {
        if i > 0 {
            push_char(&mut s, ',');
        }
        let p = &d.pages[i];
        s.append("{\"number\":");
        let num = usize_to_string(p.number);
        s.append(num.as_str());
        s.append(",\"data\":\"");
        s.append(p.data.as_str());
        s.append("\"}");
        proof {
            let prev = pv.take(i as int);
            let cur = pv[i as int];
            assert(cur == (p.number as int, p.data@));
            assert(pv.take(i + 1) =~= prev.push(cur));
            if i > 0 {
                assert(prev.push(cur).drop_last() =~= prev);
                assert(prev.push(cur).last() == cur);
                assert(pages_json(prev.push(cur)) == pages_json(prev) + seq![','] + page_json(
                    cur.0,
                    cur.1,
                ));
                assert(s@ =~= pre + (pages_json(prev) + seq![','] + page_json(cur.0, cur.1)));
            } else {
                assert(prev.push(cur).len() == 1);
                assert(prev.push(cur)[0] == cur);
                assert(pages_json(prev.push(cur)) == page_json(cur.0, cur.1));
                assert(s@ =~= pre + page_json(cur.0, cur.1));
            }
        }
        i += 1;
    }
    s.append("]}");
    proof {
        assert(pv.take(n as int) =~= pv);
        assert(s@ =~= envelope_json(d.name@, d.type_, pv));
    }
    s
}

/// The pages a sequence of rendered buffers yields: page `i` carries number
/// `i` and the padded base64 of buffer `i`.
pub open spec fn rendered_pages(bufs: Seq<Seq<u8>>) -> Seq<(int, Seq<char>)> {
    Seq::new(bufs.len(), |i: int| (i, b64_of(bufs[i])))
}

/// Builds the transport envelope for already-rendered page buffers: pages
/// numbered from zero in input order, each buffer base64-encoded with padding
/// — deliberately unlike the PDF path's unpadded encoding.
pub fn export_image(bufs: &Vec<Vec<u8>>, fmt: ImageExportFormat) -> (r: String)
    ensures
        r@ == envelope_json("imageDate"@, fmt, rendered_pages(bufs.deep_view())),
{
    let mut data = ImageData::new("imageDate".to_owned(), fmt);
    let ghost rp = rendered_pages(bufs.deep_view());
    let n = bufs.len();
    let mut i: usize = 0;
    proof {
        assert(pages_v(data.pages@) =~= rp.take(0));
    }
    while i < n
        invariant
            0 <= i <= n,
            n == bufs@.len(),
            rp == rendered_pages(bufs.deep_view()),
            rp.len() == n,
            data.name@ == "imageDate"@,
            data.type_ == fmt,
            pages_v(data.pages@) == rp.take(i as int),
        decreases n - i,
    {
        let ghost pre = data.pages@;
        let enc = b64_encode(&bufs[i]);
        let page = PageData::new(i, enc);
        data.pages.push(page);
        proof {
            assert(bufs.deep_view()[i as int] == bufs@[i as int]@);
            assert(rp[i as int] == (i as int, b64_of(bufs@[i as int]@)));
            assert(pages_v(data.pages@) =~= pages_v(pre).push((i as int, b64_of(bufs@[i as int]@))));
            assert(rp.take(i + 1) =~= rp.take(i as int).push(rp[i as int]));
        }
        i += 1;
    }
    proof {
        assert(rp.take(n as int) =~= rp);
    }
    image_data_json(&data)
}

/// The PDF transport encoding of given bytes: base64 without padding, four
/// characters for every three bytes rounded up, so it is empty only for empty
/// input.
pub fn encode_pdf_bytes(bytes: &Vec<u8>) -> (r: String)
    ensures
        r@ == b64_nopad_of(bytes@),
        r@.len() == (bytes@.len() * 4 + 2) / 3,
        r@.len() == 0 <==> bytes@.len() == 0,
        forall|i: int| 0 <= i < r@.len() ==> is_b64_char(#[trigger] r@[i]) && r@[i] != '=',
{
    b64_encode_nopad(bytes)
}

/// Export to a PDF: the document's native PDF bytes, base64 without padding,
/// as a bare string.
pub fn export_pdf(document: &typst::model::Document) -> (r: String)
    ensures
        r@ == b64_nopad_of(pdf_bytes_of(*document)),
        forall|i: int| 0 <= i < r@.len() ==> is_b64_char(#[trigger] r@[i]) && r@[i] != '=',
{
    let bytes = pdf_bytes(document);
    encode_pdf_bytes(&bytes)
}

/// Export each page to its SVG text, wrapped in the paged envelope: one entry
/// per finished page, in page order, numbered from zero, each carrying the
/// padded base64 of that page's SVG bytes.
pub fn export_svg(document: &typst::model::Document) -> (r: String)
    ensures
        r@ == envelope_json(
            "imageDate"@,
            ImageExportFormat::Svg,
            rendered_pages(pages_of(*document).map(|i: int, f: typst::layout::Frame| svg_of(f))),
        ),
{
    let frames = doc_pages(document);
    let ghost pg = pages_of(*document);
    let ghost svgs = pg.map(|i: int, f: typst::layout::Frame| svg_of(f));
    let mut bufs: Vec<Vec<u8>> = Vec::new();
    let n = frames.len();
    let mut i: usize = 0;
    proof {
        assert(bufs.deep_view() =~= svgs.take(0));
    }
    while i < n
        invariant
            0 <= i <= n,
            n == frames@.len(),
            frames@ == pg,
            svgs == pg.map(|i: int, f: typst::layout::Frame| svg_of(f)),
            svgs.len() == n,
            bufs.deep_view() == svgs.take(i as int),
        decreases n - i,
    {
        let page = svg_page_bytes(&frames[i]);
        let ghost pre = bufs.deep_view();
        bufs.push(page);
        proof {
            assert(svgs[i as int] == svg_of(pg[i as int]));
            assert(bufs.deep_view() =~~= pre.push(page@));
            assert(svgs.take(i + 1) =~= svgs.take(i as int).push(svgs[i as int]));
        }
        i += 1;
    }
    proof {
        assert(svgs.take(n as int) =~= svgs);
        assert(bufs.deep_view() == svgs);
    }
    export_image(&bufs, ImageExportFormat::Svg)
}

} // verus!
