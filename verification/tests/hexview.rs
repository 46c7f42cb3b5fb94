use editor_builtins::effect::Effect;
use editor_builtins::hexview::{dump, render_dump, HexViewPlugin, COLS, MAX_BYTES};
use editor_builtins::pdf::render::read_refusal;
use editor_builtins::ui::{PanelLine, ViewerContent};

fn row_text(line: &PanelLine) -> String {
    line.spans.iter().map(|s| s.text.as_str()).collect()
}

#[test]
fn dumps_offset_bytes_and_ascii() {
    let lines = dump(b"Hello");
    assert_eq!(lines.len(), 1);
    let row = row_text(&lines[0]);
    assert!(row.starts_with("00000000  "), "8-digit offset: {row}");
    assert!(row.contains("48 65 6c 6c 6f"), "hex bytes: {row}");
    assert!(row.ends_with("|Hello|"), "ascii gutter: {row}");
}

#[test]
fn non_printable_bytes_become_dots() {
    let row = row_text(&dump(&[0x00, 0x1f, 0x7f, 0xff])[0]);
    assert!(row.ends_with("|....|"), "{row}");
    assert!(row.contains("00 1f 7f ff"), "{row}");
}

#[test]
fn rows_are_sixteen_bytes_and_offsets_advance() {
    let lines = dump(&[b'x'; 33]);
    assert_eq!(lines.len(), 3, "33 bytes is 3 rows of 16");
    assert!(row_text(&lines[1]).starts_with("00000010"));
    assert!(row_text(&lines[2]).starts_with("00000020"));
}

#[test]
fn a_short_final_row_keeps_the_ascii_gutter_aligned() {
    // The padding matters: without it the last row's `|…|` would slide left and the column
    // would zig-zag.
    let lines = dump(&[b'a'; 17]);
    let (full, short) = (row_text(&lines[0]), row_text(&lines[1]));
    let col = |s: &str| s.find('|').unwrap();
    assert_eq!(col(&full), col(&short), "ascii gutter column drifted");
}

#[test]
fn empty_input_dumps_nothing() {
    assert!(dump(&[]).is_empty());
}

#[test]
fn reading_is_capped_and_reported() {
    let content = render_dump((MAX_BYTES + 4096) as u64, &vec![0u8; MAX_BYTES]);
    assert_eq!(content.lines.len(), MAX_BYTES / COLS, "capped at MAX_BYTES");
    assert!(
        content.status.as_deref().is_some_and(|s| s.contains("first")),
        "truncation is stated: {:?}",
        content.status
    );
}

#[test]
fn an_unreadable_file_reports_instead_of_panicking() {
    let content = ViewerContent::status_only(read_refusal("No such file or directory"));
    assert!(content.lines.is_empty());
    assert!(content.status.is_some());
}

#[test]
fn a_whole_file_is_counted() {
    let content = render_dump(17, &[b'a'; 17]);
    assert_eq!(content.status.as_deref(), Some("17 bytes (2 rows)"));
}

#[test]
fn the_active_file_is_opened_as_hex() {
    assert_eq!(
        HexViewPlugin::run_command("view.openAsHex", Some("/a.png")),
        Some(vec![Effect::OpenViewer {
            path: "/a.png".into(),
            viewer: "hexview.binary".into()
        }])
    );
    assert!(matches!(
        HexViewPlugin::run_command("view.openAsHex", None).unwrap()[0],
        Effect::Notify(_)
    ));
    assert_eq!(HexViewPlugin::run_command("view.quickOpen", None), None);
}

#[test]
fn the_viewer_claims_no_extensions() {
    let c = HexViewPlugin::contributions();
    assert_eq!(c.viewers[0].id, "hexview.binary");
    assert!(c.viewers[0].extensions.is_empty());
    assert_eq!(c.keybindings[0].chord, "ctrl+k ctrl+h");
}

#[test]
fn every_byte_stands_in_its_column() {
    let bytes: Vec<u8> = (0..40).map(|i| 0x41 + i).collect();
    let lines = dump(&bytes);
    assert_eq!(lines.len(), 3);
    for (i, b) in bytes.iter().enumerate() {
        let text = row_text(&lines[i / 16]);
        let at = 10 + 3 * (i % 16) + usize::from(i % 16 >= 8);
        assert_eq!(&text[at..at + 2], format!("{b:02x}"));
        assert_eq!(text.as_bytes()[10 + 49 + 2 + i % 16], *b);
    }
}
