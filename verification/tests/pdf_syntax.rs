use std::io::Write;

use editor_builtins::bytes::find;
use editor_builtins::pdf::filters::{
    apply_predictor, decode_stream, inflate, pick_filled, read_compressed, run_length_decode,
};
use editor_builtins::pdf::lexer::Lexer;
use editor_builtins::pdf::num::{parse_number, Num};
use editor_builtins::pdf::object::{Dict, Obj};
use editor_builtins::pdf::syntax::MAX_DEPTH;
use flate2::write::{DeflateEncoder, ZlibEncoder};

fn parse(src: &[u8]) -> Option<Obj> {
    Lexer::new(src).object()
}

#[test]
fn parses_scalars() {
    assert_eq!(parse(b"42"), Some(Obj::Number(Num::from_int(42))));
    assert_eq!(parse(b"-1.5"), Some(Obj::Number(Num { units: -1_500_000_000_000_000_000 })));
    assert_eq!(parse(b"true"), Some(Obj::Bool(true)));
    assert_eq!(parse(b"null"), Some(Obj::Null));
    assert_eq!(parse(b"/Type"), Some(Obj::Name("Type".into())));
    // `#xx` escapes in names.
    assert_eq!(parse(b"/A#20B"), Some(Obj::Name("A B".into())));
}

#[test]
fn parses_literal_string_escapes() {
    assert_eq!(parse(b"(hi)"), Some(Obj::Str(b"hi".to_vec())));
    assert_eq!(parse(br"(a\nb)"), Some(Obj::Str(b"a\nb".to_vec())));
    assert_eq!(parse(br"(a\(b\))"), Some(Obj::Str(b"a(b)".to_vec())));
    // Nested parens need no escaping.
    assert_eq!(parse(b"(a(b)c)"), Some(Obj::Str(b"a(b)c".to_vec())));
    // Octal escapes.
    assert_eq!(parse(br"(\101)"), Some(Obj::Str(b"A".to_vec())));
    // A backslash-newline is a line continuation, not content.
    assert_eq!(parse(b"(a\\\nb)"), Some(Obj::Str(b"ab".to_vec())));
}

#[test]
fn parses_hex_string_with_odd_padding() {
    assert_eq!(parse(b"<48656C6C6F>"), Some(Obj::Str(b"Hello".to_vec())));
    // A trailing odd digit is padded with 0 (spec §7.3.4.3).
    assert_eq!(parse(b"<4>"), Some(Obj::Str(vec![0x40])));
}

#[test]
fn parses_arrays_dicts_and_refs() {
    assert_eq!(
        parse(b"[1 2 /Three]"),
        Some(Obj::Array(vec![
            Obj::Number(Num::from_int(1)),
            Obj::Number(Num::from_int(2)),
            Obj::Name("Three".into())
        ]))
    );
    let d = parse(b"<< /Type /Page /Parent 3 0 R /Count 2 >>").unwrap();
    assert_eq!(d.get("Type").and_then(Obj::as_name), Some("Page"));
    assert_eq!(d.get("Parent"), Some(&Obj::Ref(3)));
    assert_eq!(d.get("Count").and_then(Obj::as_num), Some(Num::from_int(2)));
}

#[test]
fn a_number_followed_by_a_non_reference_is_not_swallowed() {
    // `1 2` must parse as two numbers — the `N G R` lookahead has to rewind cleanly.
    let mut lex = Lexer::new(b"1 2 /X");
    assert_eq!(lex.object(), Some(Obj::Number(Num::from_int(1))));
    assert_eq!(lex.object(), Some(Obj::Number(Num::from_int(2))));
    assert_eq!(lex.object(), Some(Obj::Name("X".into())));
}

#[test]
fn reads_a_stream_by_declared_length() {
    let src = b"<< /Length 5 >>\nstream\nHELLO\nendstream";
    match parse(src) {
        Some(Obj::Stream { data, .. }) => assert_eq!(data, b"HELLO"),
        other => panic!("expected a stream, got {other:?}"),
    }
}

#[test]
fn a_wrong_length_falls_back_to_searching_for_endstream() {
    // Damaged files declare stale lengths constantly; trusting one blindly truncates text.
    let src = b"<< /Length 999 >>\nstream\nHELLO\nendstream";
    match parse(src) {
        Some(Obj::Stream { data, .. }) => assert_eq!(data, b"HELLO"),
        other => panic!("expected a stream, got {other:?}"),
    }
}

#[test]
fn comments_are_skipped() {
    assert_eq!(parse(b"% a comment\n/Name"), Some(Obj::Name("Name".into())));
}

#[test]
fn malformed_input_terminates_without_panicking() {
    // Each of these used to be a plausible way to hang or index out of bounds.
    for src in [
        &b"<<"[..],
        b"[",
        b"(unterminated",
        b"<abc",
        b"<< /K",
        b"<< /Length 5 >>\nstream\nab",
        b"[[[[[[[[[[[[[[[[[[[[",
        b")",
        b"",
    ] {
        let _ = parse(src);
    }
}

#[test]
fn a_long_unparseable_run_inside_an_array_is_linear_not_quadratic() {
    // `[` + a megabyte of letters + `]`: the array's error path must consume the whole
    // keyword, not retry one byte at a time (which is O(n²) and hangs the editor).
    let mut src = vec![b'['];
    src.extend(std::iter::repeat_n(b'a', 1_000_000));
    src.push(b']');
    let start = std::time::Instant::now();
    let _ = Lexer::new(&src).object();
    assert!(
        start.elapsed() < std::time::Duration::from_secs(2),
        "array error recovery went quadratic: {:?}",
        start.elapsed()
    );
}

#[test]
fn deep_nesting_is_bounded() {
    let src: Vec<u8> = std::iter::repeat_n(b'[', MAX_DEPTH * 4).collect();
    let _ = parse(&src); // must return, not overflow the stack
}

#[test]
fn inflates_zlib_and_raw_deflate() {
    let plain = b"the quick brown fox".repeat(10);
    let mut z = ZlibEncoder::new(Vec::new(), flate2::Compression::default());
    z.write_all(&plain).unwrap();
    let zlib = z.finish().unwrap();
    assert_eq!(inflate(&zlib).as_deref(), Some(plain.as_slice()));

    let mut d = DeflateEncoder::new(Vec::new(), flate2::Compression::default());
    d.write_all(&plain).unwrap();
    let raw = d.finish().unwrap();
    assert_eq!(inflate(&raw).as_deref(), Some(plain.as_slice()));

    assert_eq!(inflate(b"not compressed at all"), None);
}

#[test]
fn decodes_ascii_filters() {
    let dict: Dict = vec![("Filter".into(), Obj::Name("ASCIIHexDecode".into()))];
    assert_eq!(
        decode_stream(&dict, b"48656c6c6f>").as_deref(),
        Some(&b"Hello"[..])
    );

    let dict: Dict = vec![("Filter".into(), Obj::Name("ASCII85Decode".into()))];
    // "Hello" in base85 (from the canonical encoder), terminated by `~>`.
    assert_eq!(
        decode_stream(&dict, b"87cURDZ~>").as_deref(),
        Some(&b"Hello"[..])
    );
}

#[test]
fn run_length_round_trips_a_literal_and_a_repeat() {
    // 2 → copy 3 literal bytes; 254 → repeat the next byte 3 times; 128 → EOD.
    let encoded = [2u8, b'a', b'b', b'c', 254, b'z', 128];
    assert_eq!(run_length_decode(&encoded), b"abczzz");
}

#[test]
fn an_unknown_filter_is_declined_rather_than_shown_as_noise() {
    let dict: Dict = vec![("Filter".into(), Obj::Name("DCTDecode".into()))];
    assert_eq!(decode_stream(&dict, b"\xff\xd8\xff"), None);
}

#[test]
fn png_up_predictor_is_undone() {
    // Two rows of 3 bytes with predictor 12 (PNG Up): the second row's deltas resolve
    // against the first.
    let dict: Dict = vec![(
        "DecodeParms".into(),
        Obj::Dict(vec![
            ("Predictor".into(), Obj::Number(Num::from_int(12))),
            ("Columns".into(), Obj::Number(Num::from_int(3))),
        ]),
    )];
    let raw = vec![2u8, 1, 2, 3, 2, 1, 1, 1];
    assert_eq!(apply_predictor(&dict, raw), vec![1, 2, 3, 2, 3, 4]);
}

#[test]
fn find_locates_and_reports_absence() {
    assert_eq!(find(b"abcdef", b"cd"), Some(2));
    assert_eq!(find(b"abcdef", b"xy"), None);
    assert_eq!(find(b"ab", b"abcdef"), None);
    assert_eq!(find(b"abc", b""), None);
}

#[test]
fn numbers_are_exact() {
    let units = |s: &str| parse_number(s.as_bytes()).map(|n| n.units);
    assert_eq!(units("1"), Some(1_000_000_000_000_000_000));
    assert_eq!(units("-.5"), Some(-500_000_000_000_000_000));
    assert_eq!(units("2.5e2"), Some(250_000_000_000_000_000_000));
    assert_eq!(units("x"), None);
}

#[test]
fn a_reading_says_whether_it_is_whole() {
    let plain = b"the quick brown fox".repeat(10);
    let mut z = ZlibEncoder::new(Vec::new(), flate2::Compression::default());
    z.write_all(&plain).unwrap();
    let zlib = z.finish().unwrap();
    let r = read_compressed(&zlib);
    assert!(r.zlib_whole && r.zlib == plain && r.raw.is_empty() && !r.raw_whole);

    let mut d = DeflateEncoder::new(Vec::new(), flate2::Compression::default());
    d.write_all(&plain).unwrap();
    let r = read_compressed(&d.finish().unwrap());
    assert!(!r.zlib_whole && r.zlib.is_empty() && r.raw_whole && r.raw == plain);

    let r = read_compressed(&[0xff, 0xff, 0xff, 0xff]);
    assert!(!r.zlib_whole && !r.raw_whole);

    let r = read_compressed(&zlib[..zlib.len() - 1]);
    assert!(!r.zlib_whole);

    assert_eq!(pick_filled(vec![1], vec![2]), Some(vec![1]));
    assert_eq!(pick_filled(vec![], vec![2]), Some(vec![2]));
    assert_eq!(pick_filled(vec![], vec![]), None);
}

#[test]
fn damaged_compressed_data_has_no_content() {
    assert_eq!(inflate(&[0xff, 0xff, 0xff, 0xff]), None);
    let plain = b"abcabcabcabc".repeat(20);
    let mut z = ZlibEncoder::new(Vec::new(), flate2::Compression::default());
    z.write_all(&plain).unwrap();
    let zlib = z.finish().unwrap();
    assert_ne!(inflate(&zlib).unwrap(), zlib);
}

#[test]
fn infinity_starts_no_reference() {
    assert!(matches!(parse(b"inf 0 R"), Some(Obj::Number(_))));
    assert!(matches!(parse(b"nan 0 R"), Some(Obj::Number(_))));
    assert!(matches!(parse(b"+7. 0 R"), Some(Obj::Ref(7))));
}
