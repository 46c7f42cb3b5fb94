use editor_builtins::bytes::{push_word, read_long, read_word};
use editor_builtins::doc::Doc;
use editor_builtins::number::{parse_usize, parse_within, wrapped};
use editor_builtins::order::{nearest_round, stable_order};
use editor_builtins::path::{
    extension, file_name, is_before, is_same_path, join, parent, show, strip_prefix,
};
use editor_builtins::place::read_place;
use editor_builtins::text::{lines_of, strip_start, take_chars, trim, trim_end};

#[test]
fn numbers_are_read_within_a_bound() {
    assert_eq!(parse_within("255", 255), Some(255));
    assert_eq!(parse_within("256", 255), None);
    assert_eq!(parse_usize("+7"), Some(7));
    assert_eq!(parse_usize(""), None);
    assert_eq!(parse_usize("-1"), None);
    assert_eq!(parse_usize("99999999999999999999999"), None);
}

#[test]
fn selections_go_round() {
    assert_eq!(wrapped(0, -1, 3), 2);
    assert_eq!(wrapped(2, 1, 3), 0);
    assert_eq!(wrapped(1, -5, 3), 2);
}

#[test]
fn sorting_keeps_equals_in_order() {
    assert_eq!(stable_order(&vec![(2, 0), (1, 5), (2, 0), (1, 4)]), vec![3, 1, 0, 2]);
}

#[test]
fn the_nearest_is_found_either_way() {
    assert_eq!(nearest_round(&vec![1, 5], 2, true), 5);
    assert_eq!(nearest_round(&vec![1, 5], 5, true), 1);
    assert_eq!(nearest_round(&vec![1, 5], 1, false), 5);
}

#[test]
fn paths_come_apart() {
    assert_eq!(file_name("/a/b.rs").as_deref(), Some("b.rs"));
    assert_eq!(parent("/a/b.rs").as_deref(), Some("/a"));
    assert_eq!(join("/a", "c"), "/a/c");
    assert_eq!(strip_prefix("/a", "/a/b/c").as_deref(), Some("b/c"));
    assert_eq!(strip_prefix("/a", "/ab"), None);
    assert_eq!(show("/a", "/x/y"), "/x/y");
    assert_eq!(extension("b.rs").as_deref(), Some("rs"));
    assert_eq!(extension(".rs"), None);
    assert!(is_before("/a/b", "/a-b"));
}

#[test]
fn paths_are_taken_by_component() {
    assert!(is_same_path("/p//a", "/p/a/"));
    assert!(is_same_path("a/./b", "a/b"));
    assert!(!is_same_path("./a", "a"));
    assert!(is_before("..", "!x") && is_before(".", ".."));
    assert_eq!(strip_prefix("/p/", "/p//x/./y/").as_deref(), Some("x/./y"));
    assert_eq!(show("/p", "/p/."), "");
    assert_eq!(parent("/p//a/.").as_deref(), Some("/p"));
    assert_eq!(file_name("a/./b/.").as_deref(), Some("b"));
    assert_eq!(file_name("."), None);
}

#[test]
fn paths_are_read_as_std_reads_them() {
    let texts = [
        "", "/", "//", ".", "./", "./.", "..", "../", "/..", "/.", "a", "a/", "a/.", "a//", "./a",
        "/a", "//a", "/./a", "/a/b", "/a//b", "/a/./b", "/a/b/", "/a/b/.", "/a/../b", "a/b", "a/./b",
        "a//b", "a.", "a./b", ".a", "/.a", "/a/.b/", "!", "!/a", "-", "a-b", "/a-b", "é/x", "a/..",
    ];
    let text = |p: &std::path::Path| p.to_str().unwrap().to_string();
    for a in texts {
        let x = std::path::Path::new(a);
        assert_eq!(file_name(a), x.file_name().map(|n| n.to_str().unwrap().to_string()), "{a}");
        assert_eq!(parent(a), x.parent().map(text), "{a}");
        for b in texts {
            let y = std::path::Path::new(b);
            assert_eq!(is_same_path(a, b), x == y, "{a} {b}");
            assert_eq!(is_before(a, b), x < y, "{a} {b}");
            assert_eq!(strip_prefix(a, b), y.strip_prefix(x).ok().map(text), "{a} {b}");
            assert_eq!(join(a, b), text(&x.join(y)), "{a} {b}");
        }
    }
}

#[test]
fn places_read_back() {
    assert_eq!(read_place("/a\tb.rs\t12"), Some(("/a\tb.rs".to_string(), 12)));
    assert_eq!(read_place("/a.rs"), None);
}

#[test]
fn texts_are_trimmed_and_cut() {
    assert_eq!(trim("\u{a0} a b\t"), "a b");
    assert_eq!(trim_end(" a \n"), " a");
    assert_eq!(take_chars("éàü", 2), "éà");
    assert_eq!(lines_of("a\r\nb\n\nc"), vec!["a", "b", "", "c"]);
    assert_eq!(strip_start("scm:3", "scm:").as_deref(), Some("3"));
    assert_eq!(strip_start("x", "scm:"), None);
}

#[test]
fn words_read_back() {
    let mut b = Vec::new();
    push_word(&mut b, 0x01020304);
    assert_eq!(b, [4, 3, 2, 1]);
    assert_eq!(read_word(&b, 0), 0x01020304);
    assert_eq!(read_long(&[1, 0, 0, 0, 0, 0, 0, 1]), 0x0100_0000_0000_0001);
}

#[test]
fn a_document_is_cut_into_its_lines() {
    let d = Doc::of_text("ab\r\n\nc\rd", 3, 99, 4, 1, 7).unwrap();
    let lines: Vec<(usize, usize)> = d.lines.iter().map(|l| (l.start, l.len)).collect();
    assert_eq!(lines, [(0, 2), (4, 0), (5, 3)]);
    assert_eq!((d.anchor, d.head), (3, 8));
    assert_eq!((d.tab_width, d.scroll_line, d.revision), (4, 1, 7));
    let empty = Doc::of_text("", 1, 1, 4, 0, 0).unwrap();
    assert_eq!((empty.lines.len(), empty.head), (1, 0));
    let ended = Doc::of_text("a\n", 0, 0, 4, 0, 0).unwrap();
    assert_eq!(ended.lines.len(), 2);
}

#[test]
fn whitespace_is_trimmed_by_its_property() {
    assert_eq!(trim("\u{85}\u{a0}\u{1680}\u{2003}x\u{200b}\u{2028}\u{3000}\t"), "x\u{200b}");
}
