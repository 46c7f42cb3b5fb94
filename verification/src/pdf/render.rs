//! The PDF viewer: a metadata header, then each page's text under a page rule.

use vstd::prelude::*;

use crate::bytes::{occurs_at, stands_at, utf8};
use crate::contribution::{Contributions, Offer};
use crate::format::{decimal, decimal_of, join2, join3, pad_right, padded_right};
use crate::pdf::document::{
    any_has, document_info, may_open, may_read, page_dicts, pairs_view, refs_view, Pdf,
};
use crate::pdf::object::{dict_view, Dict, DictView, ObjView};
use crate::pdf::objects::{scan_from, sound_containers, trailers};
use crate::pdf::sound::{
    file_objects, sound_files_open_one_way, sound_page, sound_pages_read_one_way, text_of_page,
};
use crate::text::{is_blank, lines, lines_of, texts_of, trim, trim_end, trimmed_end};
use crate::ui::{
    lines_view, no_lines, push_line, row, status_view, styled, unstyled, LineView, PanelLine, Span,
    ViewerContent, ViewerView,
};

verus! {

/// Largest file that is parsed.
pub const MAX_BYTES: u64 = 67_108_864;

/// Cap on rendered rows.
pub const MAX_LINES: usize = 200_000;

/// Why a file of `len` bytes is not parsed: it is too large.
pub open spec fn size_refusal_text(len: u64) -> Option<Seq<char>> {
    if len > MAX_BYTES {
        Some(
            "This PDF is "@ + decimal((len / 1_048_576) as nat)
                + " MB — too large to parse here. Use “View as Hex” to inspect it."@,
        )
    } else {
        None
    }
}

/// Refuse a file that is too large to parse.
pub fn size_refusal(len: u64) -> (r: Option<String>)
    ensures
        match r {
            Some(t) => size_refusal_text(len) == Some(t@),
            None => size_refusal_text(len) is None,
        },
{
    if len > MAX_BYTES {
        let mb: String = decimal_of(len / 1_048_576);
        Some(
            join3(
                "This PDF is ",
                mb.as_str(),
                " MB — too large to parse here. Use “View as Hex” to inspect it.",
            ),
        )
    } else {
        None
    }
}

/// The sentence for a file that could not be read.
pub fn read_refusal(error: &str) -> (r: String)
    ensures
        r@ == "Could not read the file: "@ + error@,
{
    join2("Could not read the file: ", error)
}

/// A blank row.
pub open spec fn blank_row() -> LineView {
    row(seq![unstyled(""@)])
}

fn push_blank(lines: &mut Vec<PanelLine>)
    ensures
        lines_view(final(lines)@) == lines_view(old(lines)@).push(blank_row()),
        final(lines)@.len() == old(lines)@.len() + 1,
{
    push_line(lines, PanelLine::one(Span::plain("".to_owned())));
}

/// The row of an information entry.
pub open spec fn info_row(e: (Seq<char>, Seq<char>)) -> LineView {
    row(seq![styled(padded_right(e.0, ' ', 14), "dim"@), unstyled(e.1)])
}

/// The header block, with a blank row under it when there is anything to show.
pub open spec fn info_rows(info: Seq<(Seq<char>, Seq<char>)>) -> Seq<LineView> {
    let rows = info.map_values(|e: (Seq<char>, Seq<char>)| info_row(e));
    if info.len() > 0 {
        rows.push(blank_row())
    } else {
        rows
    }
}

/// The information header.
pub fn info_lines(info: &Vec<(String, String)>) -> (r: Vec<PanelLine>)
    ensures
        lines_view(r@) == info_rows(pairs_view(info@)),
{
    let mut out: Vec<PanelLine> = no_lines();
    let ghost v = pairs_view(info@);
    let ghost all = v.map_values(|e: (Seq<char>, Seq<char>)| info_row(e));
    let mut k: usize = 0;
    assert(all.take(0) =~= Seq::empty());
    while k < info.len()
        invariant
            k <= info.len(),
            v == pairs_view(info@),
            all == v.map_values(|e: (Seq<char>, Seq<char>)| info_row(e)),
            lines_view(out@) == all.take(k as int),
        decreases info.len() - k,
    {
        let key: String = pad_right(info[k].0.as_str(), ' ', 14);
        let value: String = info[k].1.clone();
        push_line(&mut out, PanelLine::two(Span::new(key, "dim"), Span::plain(value)));
        assert(all.take(k + 1) =~= all.take(k as int).push(all[k as int]));
        k += 1;
    }
    assert(all.take(k as int) =~= all);
    if info.len() > 0 {
        push_blank(&mut out);
    }
    out
}

/// Whether any of the lines holds text.
pub open spec fn any_text(rows: Seq<Seq<char>>) -> bool {
    exists|k: int| 0 <= k < rows.len() && !is_blank(trimmed_end(#[trigger] rows[k]))
}

/// The rows after a page's lines from the `k`th on are added: of a run of blank lines only the
/// first, and no more rows than the cap.
pub open spec fn text_rows(
    rows: Seq<Seq<char>>,
    k: int,
    blank: bool,
    acc: Seq<LineView>,
) -> Seq<LineView>
    decreases rows.len() - k,
{
    if k < 0 || k >= rows.len() {
        acc
    } else {
        let line = trimmed_end(rows[k]);
        if is_blank(line) && blank {
            text_rows(rows, k + 1, blank, acc)
        } else if acc.len() >= MAX_LINES {
            acc
        } else {
            text_rows(rows, k + 1, is_blank(line), acc.push(row(seq![unstyled(line)])))
        }
    }
}

fn blank_text(s: &str) -> (r: bool)
    ensures
        r == is_blank(s@),
{
    let t: String = trim(s);
    t.as_str().unicode_len() == 0
}

fn has_text(rows: &Vec<String>) -> (r: bool)
    ensures
        r == any_text(texts_of(rows@)),
{
    let ghost v = texts_of(rows@);
    let mut k: usize = 0;
    while k < rows.len()
        invariant
            k <= rows.len(),
            v == texts_of(rows@),
            forall|i: int| 0 <= i < k ==> is_blank(trimmed_end(#[trigger] v[i])),
        decreases rows.len() - k,
    {
        let line: String = trim_end(rows[k].as_str());
        assert(v[k as int] == rows@[k as int]@);
        if !blank_text(line.as_str()) {
            return true;
        }
        k += 1;
    }
    false
}

/// Append one page's text, and say whether the page had any.
pub fn push_page_text(lines: &mut Vec<PanelLine>, text: &str) -> (r: bool)
    ensures
        r == any_text(crate::text::lines(text@)),
        lines_view(final(lines)@) == text_rows(
            crate::text::lines(text@),
            0,
            false,
            lines_view(old(lines)@),
        ),
{
    let rows: Vec<String> = lines_of(text);
    let ghost v = texts_of(rows@);
    let found: bool = has_text(&rows);
    let mut blank: bool = false;
    let mut k: usize = 0;
    while k < rows.len()
        invariant
            k <= rows.len(),
            v == texts_of(rows@),
            v == crate::text::lines(text@),
            found == any_text(v),
            text_rows(v, 0, false, lines_view(old(lines)@)) == text_rows(
                v,
                k as int,
                blank,
                lines_view(lines@),
            ),
        decreases rows.len() - k,
    {
        assert(v[k as int] == rows@[k as int]@);
        let line: String = trim_end(rows[k].as_str());
        let empty: bool = blank_text(line.as_str());
        if !(empty && blank) {
            assert(lines_view(lines@).len() == lines@.len());
            if lines.len() >= MAX_LINES {
                return found;
            }
            blank = empty;
            push_line(lines, PanelLine::one(Span::plain(line)));
        }
        k += 1;
    }
    found
}

/// The rule above page `n`.
pub open spec fn page_rule(n: nat) -> LineView {
    row(seq![styled("── Page "@ + decimal(n) + " ──"@, "dir"@)])
}

/// A blank row added, where there is room.
pub open spec fn spaced(acc: Seq<LineView>) -> Seq<LineView> {
    if acc.len() < MAX_LINES {
        acc.push(blank_row())
    } else {
        acc
    }
}

/// The rows with those of page `n` added, where it reads as `text`.
pub open spec fn with_page(acc: Seq<LineView>, n: nat, text: Seq<char>) -> Seq<LineView> {
    spaced(text_rows(lines(text), 0, false, acc.push(page_rule(n))))
}

/// Whether `end` may be the rows after the pages from the `k`th on are added, and how many pages had
/// text.
pub open spec fn may_list(
    m: Map<u32, ObjView>,
    pages: Seq<DictView>,
    k: int,
    acc: Seq<LineView>,
    with_text: int,
    end: (Seq<LineView>, int),
) -> bool
    decreases pages.len() - k,
{
    if k < 0 || k >= pages.len() || acc.len() >= MAX_LINES {
        end == (acc, with_text)
    } else {
        exists|text: Seq<char>| #[trigger]
            may_read(m, pages[k], text) && may_list(
                m,
                pages,
                k + 1,
                with_page(acc, (k + 1) as nat, text),
                if any_text(lines(text)) {
                    with_text + 1
                } else {
                    with_text
                },
                end,
            )
    }
}

/// The status row of a document.
pub open spec fn summary_text(objects: nat, pages: nat, with_text: nat, rows: nat) -> Seq<char> {
    if pages == 0 {
        "No pages found in "@ + decimal(objects)
            + " objects — the file may be damaged. Use “View as Hex” to inspect it."@
    } else if with_text == 0 {
        decimal(pages)
            + " page(s), none with extractable text — this is likely a scanned document. Use “View as Hex” to inspect the raw bytes."@
    } else {
        decimal(pages) + " page(s), "@ + decimal(with_text) + " with text"@ + (if rows
            >= MAX_LINES {
            " (truncated)"@
        } else {
            Seq::empty()
        })
    }
}

/// The status row: what was found, or why that is not what was expected.
pub fn summary(objects: usize, pages: usize, with_text: usize, line_count: usize) -> (r: String)
    ensures
        r@ == summary_text(objects as nat, pages as nat, with_text as nat, line_count as nat),
{
    let count: String = decimal_of(pages as u64);
    if pages == 0 {
        let n: String = decimal_of(objects as u64);
        return join3(
            "No pages found in ",
            n.as_str(),
            " objects — the file may be damaged. Use “View as Hex” to inspect it.",
        );
    }
    if with_text == 0 {
        return join2(
            count.as_str(),
            " page(s), none with extractable text — this is likely a scanned document. Use “View as Hex” to inspect the raw bytes.",
        );
    }
    let n: String = decimal_of(with_text as u64);
    let head: String = join3(count.as_str(), " page(s), ", n.as_str());
    let mut r: String = join2(head.as_str(), " with text");
    if line_count >= MAX_LINES {
        r.push_str(" (truncated)");
    }
    assert(r@ =~= summary_text(objects as nat, pages as nat, with_text as nat, line_count as nat));
    r
}

/// What the viewer shows of a file that is no PDF.
pub open spec fn foreign() -> ViewerView {
    status_view("This file does not start with a %PDF- header — it may not be a PDF."@)
}

/// What the viewer shows of an encrypted file.
pub open spec fn encrypted_view() -> ViewerView {
    status_view(
        "This PDF is encrypted — lumina can't extract its text. Use “View as Hex” to inspect the raw bytes."@,
    )
}

/// Whether the viewer may show `v` of a PDF with the bytes `s` that holds the objects `m`.
pub open spec fn may_show(s: Seq<u8>, m: Map<u32, ObjView>, v: ViewerView) -> bool {
    let ts = trailers(s, m);
    let pages = page_dicts(m);
    if any_has(ts, "Encrypt"@) {
        v == encrypted_view()
    } else {
        exists|end: (Seq<LineView>, int)| #[trigger]
            may_list(m, pages, 0, info_rows(document_info(m, ts)), 0, end) && v == (ViewerView {
                status: Some(summary_text(m.len(), pages.len(), end.1 as nat, end.0.len())),
                lines: end.0,
            })
    }
}

/// Whether the viewer may show `v` of a file with the bytes `s`.
pub open spec fn may_render(s: Seq<u8>, v: ViewerView) -> bool {
    if !occurs_at(s, utf8("%PDF-"@), 0) {
        v == foreign()
    } else {
        exists|m: Map<u32, ObjView>| #[trigger] may_open(s, m) && may_show(s, m, v)
    }
}

/// Render a file's bytes, degrading to a stated reason at every step that can fail.
pub fn render(bytes: &[u8]) -> (r: ViewerContent)
    ensures
        may_render(bytes@, r@),
        sound_file(bytes@) ==> r@ == rendered(bytes@),
        r@.lines.len() <= MAX_LINES,
{
    if !stands_at(bytes, "%PDF-".as_bytes(), 0) {
        return ViewerContent::status_only(
            "This file does not start with a %PDF- header — it may not be a PDF.".to_owned(),
        );
    }
    let pdf: Pdf = Pdf::parse(bytes);
    if pdf.encrypted {
        assert(may_show(bytes@, pdf@.objects, encrypted_view()));
        return ViewerContent::status_only(
            "This PDF is encrypted — lumina can't extract its text. Use “View as Hex” to inspect the raw bytes.".to_owned(),
        );
    }
    let pages: Vec<&Dict> = pdf.pages();
    let mut lines: Vec<PanelLine> = info_lines(&pdf.info);
    let ghost ps = refs_view(pages@);
    let ghost start = lines_view(lines@);
    let mut with_text: usize = 0;
    let mut k: usize = 0;
    while k < pages.len() && lines.len() < MAX_LINES
        invariant
            k <= pages.len(),
            ps == refs_view(pages@),
            with_text <= k,
            lines_view(lines@).len() == lines@.len(),
            forall|end: (Seq<LineView>, int)| #[trigger]
                may_list(pdf@.objects, ps, k as int, lines_view(lines@), with_text as int, end) ==> may_list(
                    pdf@.objects,
                    ps,
                    0,
                    start,
                    0,
                    end,
                ),
        decreases pages.len() - k,
    {
        assert(ps[k as int] == dict_view(pages@[k as int]@));
        let n: String = decimal_of((k + 1) as u64);
        let ghost had = lines_view(lines@);
        let ghost before = with_text as int;
        push_line(&mut lines, PanelLine::one(Span::new(join3("── Page ", n.as_str(), " ──"), "dir")));
        let text: String = pdf.page_text(pages[k]);
        if push_page_text(&mut lines, text.as_str()) {
            with_text += 1;
        }
        assert(lines_view(lines@).len() == lines@.len());
        if lines.len() < MAX_LINES {
            push_blank(&mut lines);
        }
        proof {
            assert(lines_view(lines@) == with_page(had, (k + 1) as nat, text@));
            assert forall|end: (Seq<LineView>, int)| #[trigger]
                may_list(
                    pdf@.objects,
                    ps,
                    k + 1,
                    lines_view(lines@),
                    with_text as int,
                    end,
                ) implies may_list(pdf@.objects, ps, 0, start, 0, end) by {
                assert(may_read(pdf@.objects, ps[k as int], text@));
                assert(may_list(pdf@.objects, ps, k as int, had, before, end));
            }
        }
        k += 1;
    }
    let ghost end = (lines_view(lines@), with_text as int);
    assert(may_list(pdf@.objects, ps, k as int, lines_view(lines@), with_text as int, end));
    let status: String = summary(pdf.object_count(), pages.len(), with_text, lines.len());
    let r: ViewerContent = ViewerContent { status: Some(status), lines };
    proof {
        assert(may_list(pdf@.objects, ps, 0, start, 0, end));
        assert(may_show(bytes@, pdf@.objects, r@));
        rows_are_capped(bytes@, r@);
        if sound_file(bytes@) {
            sound_files_render_one_way(bytes@, r@);
        }
    }
    r
}

/// What the plugin contributes.
pub open spec fn contributed() -> Offer {
    Offer::none().viewer("pdf.document"@, "PDF Document"@, seq!["pdf"@])
}

/// Shows the text of PDF files.
pub struct PdfPlugin;

impl PdfPlugin {
    /// What the plugin contributes.
    pub fn contributions() -> (r: Contributions)
        ensures
            r@ == contributed(),
    {
        let mut extensions: Vec<String> = Vec::new();
        extensions.push("pdf".to_owned());
        assert(texts_of(extensions@) =~= seq!["pdf"@]);
        Contributions::builder().viewer("pdf.document", "PDF Document", extensions)
    }
}

/// A file that is encrypted shows no rows, whatever it holds.
pub proof fn encrypted_shows_nothing(s: Seq<u8>, m: Map<u32, ObjView>, v: ViewerView)
    requires
        may_show(s, m, v),
        any_has(trailers(s, m), "Encrypt"@),
    ensures
        v.lines.len() == 0,
        v.status is Some,
{
}

/// Whether all that is compressed in a file, as far as it is read, is sound.
pub open spec fn sound_file(s: Seq<u8>) -> bool {
    let m = file_objects(s);
    &&& sound_containers(scan_from(s, 0, Map::empty()))
    &&& forall|k: int| 0 <= k < page_dicts(m).len() ==> sound_page(m, #[trigger] page_dicts(m)[k])
}

/// The rows after the pages from the `k`th on are added, and how many pages had text, where they are
/// sound.
pub open spec fn page_rows(
    m: Map<u32, ObjView>,
    pages: Seq<DictView>,
    k: int,
    acc: Seq<LineView>,
    with_text: int,
) -> (Seq<LineView>, int)
    decreases pages.len() - k,
{
    if k < 0 || k >= pages.len() || acc.len() >= MAX_LINES {
        (acc, with_text)
    } else {
        let text = text_of_page(m, pages[k]);
        page_rows(
            m,
            pages,
            k + 1,
            with_page(acc, (k + 1) as nat, text),
            if any_text(lines(text)) {
                with_text + 1
            } else {
                with_text
            },
        )
    }
}

/// What the viewer shows of a sound file.
pub open spec fn rendered(s: Seq<u8>) -> ViewerView {
    let m = file_objects(s);
    let ts = trailers(s, m);
    if !occurs_at(s, utf8("%PDF-"@), 0) {
        foreign()
    } else if any_has(ts, "Encrypt"@) {
        encrypted_view()
    } else {
        let pages = page_dicts(m);
        let r = page_rows(m, pages, 0, info_rows(document_info(m, ts)), 0);
        ViewerView {
            status: Some(summary_text(m.len(), pages.len(), r.1 as nat, r.0.len())),
            lines: r.0,
        }
    }
}

proof fn lemma_sound_list(
    m: Map<u32, ObjView>,
    pages: Seq<DictView>,
    k: int,
    acc: Seq<LineView>,
    with_text: int,
    end: (Seq<LineView>, int),
)
    requires
        forall|i: int| 0 <= i < pages.len() ==> sound_page(m, #[trigger] pages[i]),
    ensures
        may_list(m, pages, k, acc, with_text, end) == (end == page_rows(
            m,
            pages,
            k,
            acc,
            with_text,
        )),
    decreases pages.len() - k,
{
    if 0 <= k < pages.len() && acc.len() < MAX_LINES {
        assert(sound_page(m, pages[k]));
        let y = text_of_page(m, pages[k]);
        sound_pages_read_one_way(m, pages[k], y);
        assert forall|text: Seq<char>| #[trigger] may_read(m, pages[k], text) implies text == y by {
            sound_pages_read_one_way(m, pages[k], text);
        }
        lemma_sound_list(
            m,
            pages,
            k + 1,
            with_page(acc, (k + 1) as nat, y),
            if any_text(lines(y)) {
                with_text + 1
            } else {
                with_text
            },
            end,
        );
    }
}

/// A sound file shows one thing.
pub proof fn sound_files_render_one_way(s: Seq<u8>, v: ViewerView)
    requires
        sound_file(s),
    ensures
        may_render(s, v) == (v == rendered(s)),
{
    let m = file_objects(s);
    let ts = trailers(s, m);
    let pages = page_dicts(m);
    let start = info_rows(document_info(m, ts));
    sound_files_open_one_way(s, m);
    assert forall|x: Map<u32, ObjView>| #[trigger] may_open(s, x) implies x == m by {
        sound_files_open_one_way(s, x);
    }
    let y = page_rows(m, pages, 0, start, 0);
    lemma_sound_list(m, pages, 0, start, 0, y);
    assert forall|end: (Seq<LineView>, int)| #[trigger]
        may_list(m, pages, 0, start, 0, end) implies end == y by {
        lemma_sound_list(m, pages, 0, start, 0, end);
    }
}

/// Adding a page's text never goes past the row cap.
pub proof fn text_rows_are_capped(rows: Seq<Seq<char>>, k: int, blank: bool, acc: Seq<LineView>)
    ensures
        text_rows(rows, k, blank, acc).len() >= acc.len(),
        text_rows(rows, k, blank, acc).len() <= (if acc.len() > MAX_LINES {
            acc.len() as int
        } else {
            MAX_LINES as int
        }),
    decreases rows.len() - k,
{
    if 0 <= k < rows.len() {
        let line = trimmed_end(rows[k]);
        if is_blank(line) && blank {
            text_rows_are_capped(rows, k + 1, blank, acc);
        } else if acc.len() < MAX_LINES {
            text_rows_are_capped(rows, k + 1, is_blank(line), acc.push(row(seq![unstyled(line)])));
        }
    }
}

proof fn lemma_list(
    m: Map<u32, ObjView>,
    pages: Seq<DictView>,
    k: int,
    acc: Seq<LineView>,
    with_text: int,
    end: (Seq<LineView>, int),
)
    requires
        acc.len() <= MAX_LINES,
        may_list(m, pages, k, acc, with_text, end),
    ensures
        end.0.len() <= MAX_LINES,
    decreases pages.len() - k,
{
    if 0 <= k < pages.len() && acc.len() < MAX_LINES {
        let text = choose|text: Seq<char>| #[trigger]
            may_read(m, pages[k], text) && may_list(
                m,
                pages,
                k + 1,
                with_page(acc, (k + 1) as nat, text),
                if any_text(lines(text)) {
                    with_text + 1
                } else {
                    with_text
                },
                end,
            );
        text_rows_are_capped(lines(text), 0, false, acc.push(page_rule((k + 1) as nat)));
        lemma_list(
            m,
            pages,
            k + 1,
            with_page(acc, (k + 1) as nat, text),
            if any_text(lines(text)) {
                with_text + 1
            } else {
                with_text
            },
            end,
        );
    }
}

/// The rows that are shown of a file are capped.
pub proof fn rows_are_capped(s: Seq<u8>, v: ViewerView)
    requires
        may_render(s, v),
    ensures
        v.lines.len() <= MAX_LINES,
{
    if occurs_at(s, utf8("%PDF-"@), 0) {
        let m = choose|m: Map<u32, ObjView>| #[trigger] may_open(s, m) && may_show(s, m, v);
        let ts = trailers(s, m);
        let pages = page_dicts(m);
        let info = document_info(m, ts);
        assert(info.len() <= 8);
        if !any_has(ts, "Encrypt"@) {
            let end = choose|end: (Seq<LineView>, int)| #[trigger]
                may_list(m, pages, 0, info_rows(info), 0, end) && v == (ViewerView {
                    status: Some(summary_text(m.len(), pages.len(), end.1 as nat, end.0.len())),
                    lines: end.0,
                });
            lemma_list(m, pages, 0, info_rows(info), 0, end);
        }
    }
}

} // verus!
