use editor_builtins::effect::{Change, Effect};
use editor_builtins::key::{Key, KeyCode};
use editor_builtins::project_search::engine::{keep_hit, SearchRun};
use editor_builtins::project_search::framing::{decode, encode, SearchHit};
use editor_builtins::project_search::plugin::{
    bytes_if_changed, read_job, rewrite_bytes, search_pattern, OpenDoc, ProjectSearchPlugin, HIT_CAP,
};

fn run_search(files: &[(&str, &str)], query: &str, case: bool, cap: usize) -> Vec<SearchHit> {
    let mut run = SearchRun::new(query, case, cap);
    for (path, text) in files {
        run.search_file(path, text.as_bytes());
    }
    run.hits
}

#[test]
fn finds_matches_across_files() {
    let files = [("a.txt", "needle here\nother"), ("b.txt", "nothing\nNEEDLE again")];

    let hits = run_search(&files, "needle", false, 100);
    assert_eq!(hits.len(), 2); // case-insensitive: matches both

    let hits_cs = run_search(&files, "needle", true, 100);
    assert_eq!(hits_cs.len(), 1); // only lowercase
}

#[test]
fn hits_name_the_line_and_its_text() {
    let hits = run_search(&[("b.txt", "nothing\nNEEDLE again  \n")], "needle", false, 100);
    assert_eq!(
        hits,
        vec![SearchHit { path: "b.txt".into(), line: 2, text: "NEEDLE again".into() }]
    );
}

#[test]
fn a_search_stops_at_its_cap() {
    let files = [("a", "x\nx\nx\n"), ("b", "x\nx\n"), ("c", "x\n")];
    let hits = run_search(&files, "x", true, 4);
    let places: Vec<(&str, usize)> = hits.iter().map(|h| (h.path.as_str(), h.line)).collect();
    assert_eq!(places, [("a", 1), ("a", 2), ("a", 3), ("b", 1)]);
    assert!(run_search(&files, "x", true, 0).is_empty());
}

#[test]
fn an_invalid_expression_finds_nothing() {
    let run = SearchRun::new("(", true, 10);
    assert!(!run.wants_more());
    assert!(run_search(&[("a", "((")], "(", true, 10).is_empty());
}

#[test]
fn a_line_that_is_no_text_ends_the_file() {
    let mut run = SearchRun::new("x", true, 10);
    run.search_file("a", b"x one\nx \xff\nx three\n");
    assert_eq!(run.hits.len(), 1);
    assert!(run.wants_more());
}

#[test]
fn keeping_a_hit_says_whether_there_is_room() {
    let mut hits = Vec::new();
    assert!(keep_hit(&mut hits, "a", 1, "one\n", 2));
    assert!(!keep_hit(&mut hits, "a", 2, "two\n", 2));
    assert_eq!(hits[1].text, "two");
}

#[test]
fn replace_on_disk_rewrites_matches_and_expands_captures() {
    let p = search_pattern(r"(\w+)@(\w+)", true).unwrap();
    let a = rewrite_bytes(&p, b"user@host\nplain line\n", "$2.$1");
    let b = rewrite_bytes(&p, b"no match here\n", "$2.$1");
    assert_eq!(a.as_deref(), Some(&b"host.user\nplain line\n"[..]));
    assert_eq!(b, None, "a file with no match is left byte-for-byte alone");
}

/// A file that is not valid UTF-8 must be skipped, not mangled — the same rule the open path
/// follows. Rewriting it would mean decoding lossily and writing U+FFFD back over it.
#[test]
fn replace_on_disk_skips_files_it_cannot_round_trip() {
    let p = search_pattern("needle", true).unwrap();
    assert_eq!(rewrite_bytes(&p, b"caf\xe9 needle\n", "pin"), None);
}

#[test]
fn encode_decode_roundtrips_including_tabs_and_newlines() {
    let hits = vec![
        SearchHit {
            path: "a/b c.rs".to_string(),
            line: 3,
            text: "let x = 1;\twith tab".to_string(),
        },
        SearchHit {
            path: "weird\tname".to_string(),
            line: 128,
            text: "line\nwith newline".to_string(),
        },
    ];
    assert_eq!(decode(&encode(&hits)), hits);
    // A truncated buffer decodes to whatever prefix parsed, never panics.
    let mut bytes = encode(&hits);
    bytes.truncate(bytes.len() - 3);
    assert_eq!(decode(&bytes), hits[..1]);
}

fn hit(path: &str, line: usize) -> SearchHit {
    SearchHit { path: path.into(), line, text: String::new() }
}

#[test]
fn move_selection_wraps() {
    let mut p = ProjectSearchPlugin {
        results: vec![hit("x", 1), hit("y", 2)],
        ..ProjectSearchPlugin::new()
    };
    p.move_selection(-1);
    assert_eq!(p.selected, 1);
    p.move_selection(1);
    assert_eq!(p.selected, 0);
}

fn press(p: &mut ProjectSearchPlugin, key: Key, docs: &[OpenDoc]) -> Vec<Effect> {
    p.on_prompt_key("search", key, "/r", docs).expect("claimed")
}

fn typed(query: &str) -> ProjectSearchPlugin {
    let mut p = ProjectSearchPlugin::new();
    let _ = p.run_command("search.project", None, "/r").unwrap();
    for c in query.chars() {
        let _ = press(&mut p, Key::plain(KeyCode::Char(c)), &[]);
    }
    p
}

#[test]
fn enter_starts_a_search_and_the_answer_is_shown() {
    let mut p = typed("x");
    let out = press(&mut p, Key::plain(KeyCode::Enter), &[]);
    assert_eq!(
        out[0],
        Effect::Search {
            job: "search:1".into(),
            query: "x".into(),
            case_sensitive: false,
            cap: HIT_CAP
        }
    );
    assert!(p.running);
    let hits = [hit("/r/a.rs", 3), hit("/r/a.rs", 9)];
    let out = p.on_job("search:1", &encode(&hits), "/r");
    assert!(!p.running);
    assert_eq!(p.results.len(), 2);
    match &out[..] {
        [Effect::SetPanel { panel, content }] => {
            assert_eq!(panel, "search.results");
            assert_eq!(content.lines[2].spans[0].text, "a.rs");
            assert_eq!(content.lines[3].payload.as_deref(), Some("/r/a.rs\t3"));
        }
        other => panic!("{other:?}"),
    }
    // Enter on the same query opens the selected hit.
    assert_eq!(
        press(&mut p, Key::plain(KeyCode::Enter), &[]),
        vec![Effect::OpenPathAt { path: "/r/a.rs".into(), line: 2 }]
    );
}

#[test]
fn a_stale_answer_is_dropped() {
    let mut p = typed("x");
    let _ = press(&mut p, Key::plain(KeyCode::Enter), &[]);
    let _ = press(&mut p, Key::plain(KeyCode::Char('y')), &[]);
    let _ = press(&mut p, Key::plain(KeyCode::Enter), &[]);
    assert!(p.on_job("search:1", &encode(&[hit("/r/a", 1)]), "/r").is_empty());
    assert!(p.running && p.results.is_empty());
    let _ = p.on_job("search:2", &encode(&[hit("/r/a", 1)]), "/r");
    assert_eq!(p.results.len(), 1);
}

#[test]
fn replacing_edits_open_documents_and_leaves_the_rest_to_a_job() {
    let mut p = ProjectSearchPlugin {
        query: r"(\w)-(\w)".into(),
        replace: "$2".into(),
        results: vec![hit("/r/open", 1), hit("/r/shut", 1), hit("/r/open", 2)],
        ..ProjectSearchPlugin::new()
    };
    let docs = [OpenDoc {
        id: 4,
        path: Some("/r/open".into()),
        chars: "é a-b c-d".chars().collect(),
    }];
    let key = Key { code: KeyCode::Char('a'), ctrl: false, alt: true, shift: false };
    let out = press(&mut p, key, &docs);
    assert_eq!(
        out,
        vec![
            Effect::ApplyTo {
                doc: 4,
                changes: vec![
                    Change { at: 2, removed: "a-b".into(), inserted: "b".into() },
                    Change { at: 6, removed: "c-d".into(), inserted: "d".into() },
                ]
            },
            Effect::Rewrite {
                job: "replace:1".into(),
                paths: vec!["/r/shut".into()],
                query: r"(\w)-(\w)".into(),
                case_sensitive: false,
                replacement: "$2".into()
            },
            Effect::Notify("Replacing…".into()),
        ]
    );
}

#[test]
fn replacing_goes_by_the_query_of_the_last_search() {
    let mut p = ProjectSearchPlugin {
        query: "cat".into(),
        last_run: "dog".into(),
        replace: "fox".into(),
        results: vec![hit("/r/open", 1)],
        ..ProjectSearchPlugin::new()
    };
    let docs = [OpenDoc {
        id: 4,
        path: Some("/r/open".into()),
        chars: "cat dog".chars().collect(),
    }];
    let out = p.replace_all("/r", &docs);
    assert_eq!(
        out[0],
        Effect::ApplyTo {
            doc: 4,
            changes: vec![Change { at: 4, removed: "dog".into(), inserted: "fox".into() }]
        }
    );
}

#[test]
fn replacing_with_an_invalid_expression_says_so() {
    let mut p = ProjectSearchPlugin {
        query: "(".into(),
        results: vec![hit("/r/a", 1)],
        ..ProjectSearchPlugin::new()
    };
    assert_eq!(
        p.replace_all("/r", &[]),
        vec![Effect::Notify("Replace: the search pattern is not a valid regex".into())]
    );
}

#[test]
fn a_change_takes_what_was_filled_in() {
    let p = ProjectSearchPlugin { replace: "$1".into(), ..ProjectSearchPlugin::new() };
    let chars: Vec<char> = "é a-b".chars().collect();
    assert_eq!(
        p.change_for(&chars, 2, 5, Some("a".into())),
        Change { at: 2, removed: "a-b".into(), inserted: "a".into() }
    );
    assert_eq!(
        p.change_for(&chars, 0, 1, None),
        Change { at: 0, removed: "é".into(), inserted: "$1".into() }
    );
}

#[test]
fn unchanged_text_is_not_written() {
    assert_eq!(bytes_if_changed("é", "é"), None);
    assert_eq!(bytes_if_changed("é", "éa"), Some("éa".as_bytes().to_vec()));
}

#[test]
fn a_file_is_the_same_however_it_is_written() {
    let mut p = ProjectSearchPlugin {
        query: "cat".into(),
        replace: "fox".into(),
        results: vec![hit("/r/open", 1), hit("/r//open", 2), hit("/r/./open/", 3)],
        ..ProjectSearchPlugin::new()
    };
    let docs = [OpenDoc { id: 4, path: Some("/r/open/.".into()), chars: vec!['c', 'a', 't'] }];
    let out = p.replace_all("/r", &docs);
    let applied = out.iter().filter(|e| matches!(e, Effect::ApplyTo { .. })).count();
    assert_eq!(applied, 1);
    assert!(!out.iter().any(|e| matches!(e, Effect::Rewrite { .. })));
}

#[test]
fn job_names_read_back() {
    assert_eq!(read_job("search:17", "search:"), Some(17));
    assert_eq!(read_job("replace:17", "search:"), None);
    assert_eq!(read_job("search:x", "search:"), None);
}
