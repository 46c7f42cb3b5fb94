use std::io::Write;

use editor_builtins::pdf::cmap::CMap;
use editor_builtins::pdf::content::extract_text;
use editor_builtins::pdf::document::{Pdf, MAX_PAGE_CONTENT};
use editor_builtins::pdf::encoding::win_ansi;
use editor_builtins::pdf::filters::{decode_stream, MAX_DECODED};
use editor_builtins::pdf::num::Num;
use editor_builtins::pdf::object::{Dict, Obj};
use editor_builtins::pdf::objects::{
    expand_object_streams, object_number_before, scan_objects, Objects,
};
use editor_builtins::pdf::render::{read_refusal, render, size_refusal, PdfPlugin, MAX_BYTES};
use editor_builtins::ui::ViewerContent;

/// Build a minimal but *valid* PDF around one page whose content stream is `content`,
/// optionally Flate-compressed. Hand-written rather than generated so the fixtures stay
/// hermetic and readable — and so a regression points at a specific byte.
fn make_pdf(content: &[u8], compress: bool) -> Vec<u8> {
    let (stream, filter) = if compress {
        let mut enc =
            flate2::write::ZlibEncoder::new(Vec::new(), flate2::Compression::default());
        enc.write_all(content).unwrap();
        (enc.finish().unwrap(), "/Filter /FlateDecode ")
    } else {
        (content.to_vec(), "")
    };
    let mut out = Vec::from(&b"%PDF-1.4\n"[..]);
    out.extend_from_slice(b"1 0 obj\n<< /Type /Catalog /Pages 2 0 R >>\nendobj\n");
    out.extend_from_slice(b"2 0 obj\n<< /Type /Pages /Kids [3 0 R] /Count 1 >>\nendobj\n");
    out.extend_from_slice(
        b"3 0 obj\n<< /Type /Page /Parent 2 0 R /Contents 4 0 R >>\nendobj\n",
    );
    out.extend_from_slice(
        format!("4 0 obj\n<< /Length {} {filter}>>\nstream\n", stream.len()).as_bytes(),
    );
    out.extend_from_slice(&stream);
    out.extend_from_slice(b"\nendstream\nendobj\n");
    out.extend_from_slice(b"trailer\n<< /Root 1 0 R /Info 5 0 R >>\n");
    out.extend_from_slice(
        b"5 0 obj\n<< /Title (Test Document) /Producer (lumina tests) >>\nendobj\n",
    );
    out.extend_from_slice(b"%%EOF\n");
    out
}

fn body(content: &ViewerContent) -> String {
    content
        .lines
        .iter()
        .map(|l| l.spans.iter().map(|s| s.text.as_str()).collect::<String>())
        .collect::<Vec<_>>()
        .join("\n")
}

fn render_bytes(bytes: &[u8]) -> ViewerContent {
    render(bytes)
}

const CONTENT: &[u8] = b"BT /F1 12 Tf 72 720 Td (Hello, PDF) Tj 0 -14 Td (Second line) Tj ET";

#[test]
fn extracts_text_from_an_uncompressed_pdf() {
    let content = render_bytes(&make_pdf(CONTENT, false));
    let text = body(&content);
    assert!(text.contains("Hello, PDF"), "{text}");
    assert!(text.contains("Second line"), "{text}");
    assert!(text.contains("Page 1"), "page rule is drawn: {text}");
    assert_eq!(
        content.status.as_deref(),
        Some("1 page(s), 1 with text"),
        "status reports the page count"
    );
}

#[test]
fn a_flate_compressed_stream_extracts_identically() {
    // The overwhelmingly common real-world shape; if only the uncompressed path worked, the
    // viewer would look fine in tests and be blank on every actual document.
    let plain = body(&render_bytes(&make_pdf(CONTENT, false)));
    let deflated = body(&render_bytes(&make_pdf(CONTENT, true)));
    assert_eq!(plain, deflated);
    assert!(deflated.contains("Hello, PDF"));
}

#[test]
fn document_metadata_is_shown() {
    let text = body(&render_bytes(&make_pdf(CONTENT, false)));
    assert!(text.contains("Test Document"), "title: {text}");
    assert!(text.contains("lumina tests"), "producer: {text}");
}

#[test]
fn an_encrypted_document_says_so_instead_of_showing_noise() {
    let mut pdf = make_pdf(CONTENT, false);
    pdf.extend_from_slice(b"trailer\n<< /Encrypt 9 0 R >>\n");
    let content = render_bytes(&pdf);
    assert!(
        content
            .status
            .as_deref()
            .is_some_and(|s| s.contains("encrypted")),
        "{:?}",
        content.status
    );
    assert!(content.lines.is_empty(), "no garbage body");
}

#[test]
fn a_page_with_no_text_reports_a_scan_rather_than_an_empty_pane() {
    let content = render_bytes(&make_pdf(b"q 1 0 0 1 0 0 cm /Im0 Do Q", false));
    assert!(
        content
            .status
            .as_deref()
            .is_some_and(|s| s.contains("no extractable text") || s.contains("none with")),
        "{:?}",
        content.status
    );
}

#[test]
fn pages_inside_an_object_stream_are_found() {
    // PDF 1.5+ writers put page dictionaries in an ObjStm; a scanner that ignored those
    // would report "no pages" on most modern documents.
    let inner = b"<< /Type /Catalog /Pages 2 0 R >> << /Type /Pages /Kids [3 0 R] /Count 1 >> << /Type /Page /Parent 2 0 R /Contents 4 0 R >>";
    // Offsets of the three objects within `inner`.
    let first_len = inner
        .iter()
        .position(|&b| b == b'>')
        .map(|_| 0)
        .unwrap_or(0);
    let _ = first_len;
    let o1 = 0usize;
    let o2 = extract_offset(inner, 1);
    let o3 = extract_offset(inner, 2);
    let header = format!("1 {o1} 2 {o2} 3 {o3} ");
    let mut payload = header.clone().into_bytes();
    payload.extend_from_slice(inner);

    let mut enc = flate2::write::ZlibEncoder::new(Vec::new(), flate2::Compression::default());
    enc.write_all(&payload).unwrap();
    let stream = enc.finish().unwrap();

    let mut out = Vec::from(&b"%PDF-1.5\n"[..]);
    out.extend_from_slice(
        format!(
            "6 0 obj\n<< /Type /ObjStm /N 3 /First {} /Length {} /Filter /FlateDecode >>\nstream\n",
            header.len(),
            stream.len()
        )
        .as_bytes(),
    );
    out.extend_from_slice(&stream);
    out.extend_from_slice(b"\nendstream\nendobj\n");
    out.extend_from_slice(
        format!("4 0 obj\n<< /Length {} >>\nstream\n", CONTENT.len()).as_bytes(),
    );
    out.extend_from_slice(CONTENT);
    out.extend_from_slice(b"\nendstream\nendobj\n%%EOF\n");

    let text = body(&render_bytes(&out));
    assert!(text.contains("Hello, PDF"), "{text}");
}

/// Byte offset of the `n`-th `<<`-delimited object inside a concatenated payload.
fn extract_offset(buf: &[u8], n: usize) -> usize {
    buf.windows(2)
        .enumerate()
        .filter(|(_, w)| *w == b"<<")
        .map(|(i, _)| i)
        .nth(n)
        .unwrap_or(0)
}

#[test]
fn a_non_pdf_file_is_reported_not_parsed() {
    let content = render_bytes(b"not a pdf at all\n");
    assert!(
        content
            .status
            .as_deref()
            .is_some_and(|s| s.contains("%PDF-")),
        "{:?}",
        content.status
    );
}

#[test]
fn truncated_and_garbage_files_return_instead_of_panicking() {
    let full = make_pdf(CONTENT, true);
    // Every prefix of a real PDF, plus pure noise: none may panic or hang.
    for cut in [8, 40, 100, full.len() / 2, full.len() - 1] {
        let _ = render_bytes(&full[..cut.min(full.len())]);
    }
    let mut noise = Vec::from(&b"%PDF-1.7\n"[..]);
    noise.extend((0u8..=255).cycle().take(4096));
    let _ = render_bytes(&noise);
}

#[test]
fn a_missing_file_reports_rather_than_panicking() {
    let content = ViewerContent::status_only(read_refusal("No such file or directory"));
    assert!(content.status.is_some());
    assert!(content.lines.is_empty());
}

#[test]
fn a_file_too_large_is_refused() {
    assert_eq!(size_refusal(MAX_BYTES), None);
    let why = size_refusal(70 * 1024 * 1024).unwrap();
    assert!(why.contains("70 MB"), "{why}");
}

#[test]
fn the_viewer_claims_pdf_files() {
    let c = PdfPlugin::contributions();
    assert_eq!(c.viewers[0].id, "pdf.document");
    assert_eq!(c.viewers[0].extensions, vec!["pdf".to_string()]);
}

fn cmap_from(entries: &[(u16, &str)]) -> CMap {
    let mut src = String::from("1 beginbfchar\n");
    for (code, text) in entries {
        let utf16: String = text.encode_utf16().map(|u| format!("{:04X}", u)).collect();
        src.push_str(&format!("<{code:04X}> <{utf16}>\n"));
    }
    src.push_str("endbfchar\n");
    CMap::parse(src.as_bytes())
}

#[test]
fn scans_objects_and_ignores_endobj() {
    let src = b"1 0 obj\n<< /Type /Page >>\nendobj\n2 0 obj\n42\nendobj\n";
    let objects = scan_objects(src);
    assert_eq!(objects.len(), 2);
    assert_eq!(objects[&1].get("Type").and_then(Obj::as_name), Some("Page"));
    assert_eq!(objects[&2].as_num(), Some(Num::from_int(42)));
}

#[test]
fn obj_bytes_inside_a_stream_are_not_mistaken_for_a_header() {
    // The scanner skips each object's extent precisely so this can't happen.
    let src = b"1 0 obj\n<< /Length 12 >>\nstream\n9 0 obj junk\nendstream\nendobj\n";
    let objects = scan_objects(src);
    assert_eq!(objects.len(), 1, "only the real object: {objects:?}");
    assert!(objects.contains_key(&1));
}

#[test]
fn a_later_definition_wins() {
    // That is what an incremental update means.
    let src = b"1 0 obj\n(old)\nendobj\n1 0 obj\n(new)\nendobj\n";
    assert_eq!(scan_objects(src)[&1], Obj::Str(b"new".to_vec()));
}

#[test]
fn cmap_bfchar_maps_codes() {
    let cmap = cmap_from(&[(1, "H"), (2, "i")]);
    assert_eq!(cmap.decode(&[0x00, 0x01, 0x00, 0x02]), "Hi");
}

#[test]
fn cmap_bfrange_maps_consecutive_codes() {
    let src = b"1 beginbfrange\n<0041> <0043> <0061>\nendbfrange\n";
    let cmap = CMap::parse(src);
    assert_eq!(cmap.decode(&[0x00, 0x41, 0x00, 0x42, 0x00, 0x43]), "abc");
}

#[test]
fn cmap_bfrange_array_form_maps_each_code() {
    let src = b"1 beginbfrange\n<0001> <0002> [<0058> <0059>]\nendbfrange\n";
    let cmap = CMap::parse(src);
    assert_eq!(cmap.decode(&[0x00, 0x01, 0x00, 0x02]), "XY");
}

#[test]
fn text_operators_recover_words_and_lines() {
    let content = b"BT /F1 12 Tf 100 700 Td (Hello) Tj 0 -14 Td (World) Tj ET";
    let text = extract_text(content, &Vec::new());
    assert!(text.contains("Hello"), "{text:?}");
    assert!(text.contains("World"), "{text:?}");
    assert!(
        text.find("Hello").unwrap() < text.find('\n').unwrap(),
        "the baseline move became a line break: {text:?}"
    );
}

#[test]
fn tj_arrays_turn_large_kerns_into_spaces() {
    let content = b"BT [(Hello) -300 (World)] TJ ET";
    assert!(extract_text(content, &Vec::new()).contains("Hello World"));
    // A small kern is just tracking, not a word break.
    let tight = b"BT [(Hel) -20 (lo)] TJ ET";
    assert!(extract_text(tight, &Vec::new()).contains("Hello"));
}

#[test]
fn quote_operators_advance_a_line_and_show() {
    let content = b"BT 14 TL (one) ' (two) ' ET";
    let text = extract_text(content, &Vec::new());
    assert!(text.contains("one") && text.contains("two"), "{text:?}");
    assert!(text.contains('\n'), "each ' starts a new line: {text:?}");
}

#[test]
fn text_uses_the_font_cmap_when_one_is_set() {
    let fonts = vec![("F1".to_string(), cmap_from(&[(1, "H"), (2, "i")]))];
    let content = b"BT /F1 12 Tf <00010002> Tj ET";
    assert!(extract_text(content, &fonts).contains("Hi"));
}

#[test]
fn winansi_maps_the_0x80_range_to_printable_characters() {
    assert_eq!(win_ansi(0x80), '€');
    assert_eq!(win_ansi(0x92), '’');
    assert_eq!(win_ansi(b'A'), 'A');
}

#[test]
fn a_cmap_cannot_be_made_to_grow_without_bound() {
    // Range after 64 K-wide range: the entry cap is what keeps a hostile CMap from
    // building an arbitrarily large map on the UI thread.
    let mut src = String::new();
    for _ in 0..8 {
        src.push_str("1 beginbfrange\n<0000> <FFFF> <0041>\nendbfrange\n");
    }
    let start = std::time::Instant::now();
    let cmap = CMap::parse(src.as_bytes());
    assert!(cmap.map.len() <= 65_536, "entry cap held");
    assert!(start.elapsed() < std::time::Duration::from_secs(5));
}

#[test]
fn a_cmap_is_full_in_the_middle_of_a_range() {
    let src = b"2 beginbfrange\n<00000001> <0000FFFF> <0041>\n<00010000> <0001FFFF> <0041>\nendbfrange\n";
    let cmap = CMap::parse(src);
    assert_eq!(cmap.map.len(), 65_536);
    assert_eq!(cmap.code_bytes, 4);
    assert_eq!(cmap.decode(&[0, 1, 0, 0]), "A");
    assert_eq!(cmap.decode(&[0, 1, 0, 1]), "");
}

#[test]
fn a_cmap_is_full_in_the_middle_of_a_list() {
    let src =
        b"2 beginbfrange\n<00000001> <0000FFFF> <0041>\n<00010000> <00010001> [<0042> <0043>]\nendbfrange\n";
    let cmap = CMap::parse(src);
    assert_eq!(cmap.map.len(), 65_536);
    assert_eq!(cmap.decode(&[0, 1, 0, 0]), "B");
    assert_eq!(cmap.decode(&[0, 1, 0, 1]), "");
}

#[test]
fn an_object_number_starts_a_token() {
    assert_eq!(object_number_before(b"a1 0 obj", 5), None);
    assert_eq!(object_number_before(b"1 0 obj", 4), Some(1));
    assert_eq!(object_number_before(b">1 0 obj", 5), Some(1));
    assert_eq!(object_number_before(b"\n12 0 obj", 6), Some(12));
    assert_eq!(object_number_before(b"1 0obj", 3), None);
}

#[test]
fn a_bfrange_whose_codes_run_past_u32_stops_instead_of_overflowing() {
    // `lo` comes straight from the file; without a checked add this panics in debug.
    let src = b"1 beginbfrange\n<FFFFFFFF> <FFFFFFFF> [<0041> <0042> <0043>]\nendbfrange\n";
    let cmap = CMap::parse(src);
    assert_eq!(cmap.decode(&[0xFF, 0xFF, 0xFF, 0xFF]), "A");
}

#[test]
fn a_self_referential_page_tree_terminates() {
    // `/Kids` naming its own node never reaches a leaf, so `out` never grows and only the
    // depth cap applies — at 2^32 visits, which is a hang, not a slow parse.
    let mut src = Vec::from(&b"%PDF-1.4\n"[..]);
    src.extend_from_slice(b"1 0 obj\n<< /Type /Catalog /Pages 2 0 R >>\nendobj\n");
    src.extend_from_slice(b"2 0 obj\n<< /Type /Pages /Kids [2 0 R 2 0 R] >>\nendobj\n");
    let pdf = Pdf::parse(&src);
    let start = std::time::Instant::now();
    let pages = pdf.pages();
    assert!(
        start.elapsed() < std::time::Duration::from_secs(2),
        "cyclic page tree took {:?}",
        start.elapsed()
    );
    assert!(pages.is_empty(), "a cycle contains no real pages");
}

#[test]
fn a_branching_page_tree_is_bounded_by_total_visits() {
    // Each node doubling into the next gives 2^depth visits without ever reaching a leaf —
    // the depth cap alone doesn't bound it.
    let depth = 24usize;
    let mut src = Vec::from(&b"%PDF-1.4\n"[..]);
    src.extend_from_slice(b"1 0 obj\n<< /Type /Catalog /Pages 2 0 R >>\nendobj\n");
    for k in 2..(2 + depth) {
        src.extend_from_slice(
            format!(
                "{k} 0 obj\n<< /Type /Pages /Kids [{n} 0 R {n} 0 R] >>\nendobj\n",
                n = k + 1
            )
            .as_bytes(),
        );
    }
    src.extend_from_slice(
        format!("{} 0 obj\n<< /Type /Page >>\nendobj\n", 2 + depth).as_bytes(),
    );
    let pdf = Pdf::parse(&src);
    let start = std::time::Instant::now();
    let _ = pdf.pages();
    assert!(
        start.elapsed() < std::time::Duration::from_secs(5),
        "branching page tree took {:?}",
        start.elapsed()
    );
}

#[test]
fn an_object_stream_offset_past_usize_is_skipped_not_added() {
    // `1e30 as usize` saturates to `usize::MAX`; a plain `first + offset` then panics.
    let dict: Dict = vec![
        ("Type".into(), Obj::Name("ObjStm".into())),
        ("N".into(), Obj::Number(Num::from_int(1))),
        ("First".into(), Obj::Number(Num::from_int(8))),
    ];
    let mut objects: Objects = Objects::new();
    objects.insert(
        1u32,
        Obj::Stream {
            dict,
            data: b"1 1e30 <</X 1>>".to_vec(),
        },
    );
    expand_object_streams(&mut objects);
    assert_eq!(objects.len(), 1, "the bad entry was skipped, not expanded");
}

#[test]
fn repeated_content_references_are_bounded() {
    // `/Contents` naming one stream hundreds of times decodes it hundreds of times, so a
    // small file becomes gigabytes of work. Asserted against `page_content` directly, so the
    // test proves the cap without paying to extract text from 64 MB.
    let payload = b"BT (x) Tj ET ".repeat(200_000); // ~2.6 MB per decode
    let mut enc = flate2::write::ZlibEncoder::new(Vec::new(), flate2::Compression::default());
    enc.write_all(&payload).unwrap();
    let stream = enc.finish().unwrap();
    let mut src = Vec::from(&b"%PDF-1.4\n"[..]);
    src.extend_from_slice(b"1 0 obj\n<< /Type /Catalog /Pages 2 0 R >>\nendobj\n");
    src.extend_from_slice(b"2 0 obj\n<< /Type /Pages /Kids [3 0 R] >>\nendobj\n");
    // 400 × 2.6 MB is a gigabyte uncapped, from a file under 20 KB.
    let refs = "4 0 R ".repeat(400);
    src.extend_from_slice(
        format!("3 0 obj\n<< /Type /Page /Contents [{refs}] >>\nendobj\n").as_bytes(),
    );
    src.extend_from_slice(
        format!(
            "4 0 obj\n<< /Length {} /Filter /FlateDecode >>\nstream\n",
            stream.len()
        )
        .as_bytes(),
    );
    src.extend_from_slice(&stream);
    src.extend_from_slice(b"\nendstream\nendobj\n");
    let pdf = Pdf::parse(&src);
    let pages = pdf.pages();
    let content = pdf.page_content(pages[0]);
    assert!(
        content.len() <= MAX_PAGE_CONTENT + payload.len() + 1,
        "page content grew to {} bytes",
        content.len()
    );
}

fn zlib(plain: &[u8]) -> Vec<u8> {
    let mut enc = flate2::write::ZlibEncoder::new(Vec::new(), flate2::Compression::default());
    enc.write_all(plain).unwrap();
    enc.finish().unwrap()
}

fn raw_deflate(plain: &[u8]) -> Vec<u8> {
    let mut enc = flate2::write::DeflateEncoder::new(Vec::new(), flate2::Compression::default());
    enc.write_all(plain).unwrap();
    enc.finish().unwrap()
}

#[test]
fn compressed_pages_read_as_they_do_uncompressed() {
    // Two content streams and a character map, each as it is or compressed in one of two ways.
    let parts: [&[u8]; 3] = [
        b"BT /F1 12 Tf <41> Tj ET",
        b"BT 0 -14 Td <42> Tj ET",
        b"2 beginbfchar <41> <005A> <42> <0059> endbfchar",
    ];
    let file = |filter: &str, encode: &dyn Fn(&[u8]) -> Vec<u8>| {
        let mut out = Vec::from(
            &b"1 0 obj << /Type /Catalog /Pages 2 0 R >> endobj\n\
               2 0 obj << /Type /Pages /Kids [3 0 R] >> endobj\n\
               3 0 obj << /Type /Page /Parent 2 0 R /Contents [10 0 R 11 0 R] \
               /Resources << /Font << /F1 5 0 R >> >> >> endobj\n\
               5 0 obj << /ToUnicode 12 0 R >> endobj\n"[..],
        );
        for (k, part) in parts.iter().enumerate() {
            let data = encode(part);
            let head =
                format!("{} 0 obj << /Length {} {filter} >> stream\n", 10 + k, data.len());
            out.extend_from_slice(head.as_bytes());
            out.extend_from_slice(&data);
            out.extend_from_slice(b"\nendstream endobj\n");
        }
        out
    };
    let read = |src: Vec<u8>| {
        let pdf = Pdf::parse(&src);
        let pages = pdf.pages();
        (pdf.page_content(pages[0]), pdf.page_text(pages[0]))
    };
    let plain = read(file("", &|p| p.to_vec()));
    assert!(plain.1.contains('Z') && plain.1.contains('Y'), "{}", plain.1);
    assert_eq!(read(file("/Filter /FlateDecode", &zlib)), plain);
    assert_eq!(read(file("/Filter [/Fl]", &raw_deflate)), plain);
}

#[test]
fn a_page_that_is_cut_short_keeps_what_was_read() {
    let plain: Vec<u8> = (0u32..60_000).flat_map(|i| i.wrapping_mul(2_654_435_761).to_le_bytes()).collect();
    let whole = zlib(&plain);
    let dict: Dict = vec![("Filter".into(), Obj::Name("FlateDecode".into()))];
    assert_eq!(decode_stream(&dict, &whole).unwrap(), plain);
    let part = decode_stream(&dict, &whole[..whole.len() / 2]).unwrap();
    assert!(!part.is_empty() && part.len() < plain.len());
    assert!(plain.starts_with(&part));
}

#[test]
fn garbage_content_terminates() {
    for junk in [&b"BT ((((("[..], b"TJ", b"", b"<<<<<<", b")))]]]"] {
        let _ = extract_text(junk, &Vec::new());
    }
}

#[test]
fn the_nearest_definition_of_a_font_wins() {
    let file = |fonts: &str| {
        format!(
            "1 0 obj << /Type /Catalog /Pages 2 0 R >> endobj\n\
             2 0 obj << /Type /Pages /Kids [3 0 R] /Resources << /Font << /F1 5 0 R >> >> >> endobj\n\
             3 0 obj << /Type /Page /Parent 2 0 R /Contents 4 0 R {fonts} >> endobj\n\
             4 0 obj << >> stream\nBT /F1 12 Tf <41> Tj ET\nendstream endobj\n\
             5 0 obj << /ToUnicode 7 0 R >> endobj\n\
             6 0 obj << /Type /Font >> endobj\n\
             7 0 obj << >> stream\n1 beginbfchar <41> <005A> endbfchar\nendstream endobj\n"
        )
    };
    let text = |src: String| {
        let pdf = Pdf::parse(src.as_bytes());
        let pages = pdf.pages();
        pdf.page_text(pages[0])
    };
    assert_eq!(text(file("")).trim(), "Z", "inherited");
    assert_eq!(text(file("/Resources << /Font << /F1 6 0 R >> >>")).trim(), "A", "overridden");
}

#[test]
fn a_decoded_stream_is_capped() {
    let runs: Vec<u8> = [129u8, b'x'].repeat(MAX_DECODED / 128 + 1);
    let dict = vec![("Filter".to_string(), Obj::Name("RL".to_string()))];
    assert_eq!(decode_stream(&dict, &runs).unwrap().len(), MAX_DECODED);
    assert_eq!(decode_stream(&dict, &runs[..4]).unwrap().len(), 256);
}
