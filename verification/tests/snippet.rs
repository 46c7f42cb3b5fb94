use editor_builtins::snippet::expand;

#[test]
fn empty_tabstop_and_final_cursor() {
    let s = expand("println!($1)$0");
    assert_eq!(s.text, "println!()");
    // $1 at the '(' + 1 = char 9; $0 at end (10).
    assert_eq!(s.first_stop().unwrap().number, 1);
    assert_eq!(s.first_stop().unwrap().range, (9, 9));
}

#[test]
fn placeholder_text_and_range() {
    let s = expand("for ${1:item} in ${2:iter} {\n\t$0\n}");
    assert!(s.text.starts_with("for item in iter {"));
    let t1 = s.first_stop().unwrap();
    assert_eq!(t1.number, 1);
    assert_eq!(&s.text[t1.range.0..t1.range.1], "item");
}

#[test]
fn choice_uses_first_and_vars_and_escapes() {
    assert_eq!(expand("${1|a,b,c|}").text, "a");
    assert_eq!(expand("${TM_UNKNOWN:def}").text, "def"); // unknown var → default
    assert_eq!(expand("$UNKNOWN").text, ""); // bare unknown var → empty
    assert_eq!(expand("cost is \\$5").text, "cost is $5"); // escaped $
}

#[test]
fn text_without_marks_is_kept() {
    let s = expand("fn main() { é }");
    assert_eq!(s.text, "fn main() { é }");
    assert!(s.first_stop().is_none());
}

#[test]
fn the_lowest_number_comes_first_and_zero_last() {
    let s = expand("$0 $2 $1");
    assert_eq!(s.first_stop().unwrap().number, 1);
    let only_end = expand("a$0");
    assert_eq!(only_end.first_stop().unwrap().number, 0);
    assert_eq!(only_end.first_stop().unwrap().range, (1, 1));
}

#[test]
fn placeholders_nest() {
    let s = expand("${1:a${2:b}c}");
    assert_eq!(s.text, "abc");
    assert_eq!(s.first_stop().unwrap().range, (0, 3));
}
