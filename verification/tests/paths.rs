use gsync::exclusion::{is_excluded, is_rule_file, parse_gitignore, rule_file};
use gsync::path::{normalize_path, same_path};
use gsync::text::{characters, contains, same_text, split_ranges};

#[test]
fn same_path_ignores_a_trailing_separator() {
    assert!(same_path("/a/b/", "/a/b"));
    assert!(same_path("/a/b", "/a/b/"));
}

#[test]
fn same_path_ignores_doubled_separators() {
    assert!(same_path("/a//b", "/a/b"));
    assert!(same_path("a///b//", "a/b"));
}

#[test]
fn same_path_ignores_inner_periods() {
    assert!(same_path("/a/./b", "/a/b"));
    assert!(same_path("/./a", "/a"));
    assert!(same_path("a/.", "a"));
}

#[test]
fn same_path_keeps_a_leading_period() {
    assert!(!same_path("./a", "a"));
    assert!(same_path("./a", ".//a/"));
    assert!(same_path(".", "./"));
}

#[test]
fn same_path_tells_rooted_from_relative() {
    assert!(!same_path("/a", "a"));
    assert!(!same_path("", "/"));
    assert!(same_path("", ""));
    assert!(same_path("/", "//"));
}

#[test]
fn same_path_does_not_resolve_parents() {
    assert!(!same_path("/a/b/..", "/a"));
    assert!(same_path("/a/../b", "/a/..//b"));
}

#[test]
fn same_path_compares_every_component() {
    assert!(!same_path("/a/b", "/a/c"));
    assert!(!same_path("/a/b", "/a/b/c"));
    assert!(!same_path("/a/b/c", "/a/b"));
    assert!(!same_path("/ab", "/a/b"));
}

#[test]
fn rule_file_is_named_gitignore() {
    assert_eq!(rule_file(), ".gitignore");
    assert!(is_rule_file(".gitignore"));
    assert!(!is_rule_file("gitignore"));
    assert!(!is_rule_file(".gitignore "));
    assert!(!is_rule_file(""));
}

#[test]
fn parse_anchors_lines_to_the_directory() {
    let rules = parse_gitignore("/a/b", "foo\nbar/baz\n");
    assert_eq!(rules, vec![String::from("/a/b/foo"), String::from("/a/b/bar/baz")]);
}

#[test]
fn parse_strips_one_leading_separator() {
    let rules = parse_gitignore("/a", "/foo\n//bar\n/\n");
    assert_eq!(
        rules,
        vec![String::from("/a/foo"), String::from("/a//bar"), String::from("/a/")]
    );
}

#[test]
fn parse_passes_over_empty_lines_and_comments() {
    let rules = parse_gitignore("/a", "# a comment\n\nfoo\n#bar\n\n");
    assert_eq!(rules, vec![String::from("/a/foo")]);
}

#[test]
fn parse_reads_a_last_line_without_newline() {
    let rules = parse_gitignore("/a", "foo\nbar");
    assert_eq!(rules, vec![String::from("/a/foo"), String::from("/a/bar")]);
}

#[test]
fn parse_ends_lines_at_carriage_return_and_newline() {
    let rules = parse_gitignore("/a", "foo\r\nbar\r\n");
    assert_eq!(rules, vec![String::from("/a/foo"), String::from("/a/bar")]);
}

#[test]
fn parse_keeps_a_carriage_return_that_no_newline_follows() {
    let rules = parse_gitignore("/a", "foo\r\nbar\r");
    assert_eq!(rules, vec![String::from("/a/foo"), String::from("/a/bar\r")]);
    let inner = parse_gitignore("/a", "fo\ro\n");
    assert_eq!(inner, vec![String::from("/a/fo\ro")]);
}

#[test]
fn parse_of_a_line_with_only_a_carriage_return_gives_no_rule() {
    let rules = parse_gitignore("/a", "\r\nfoo\n");
    assert_eq!(rules, vec![String::from("/a/foo")]);
}

#[test]
fn parse_of_nothing_gives_no_rule() {
    assert_eq!(parse_gitignore("/a", ""), Vec::<String>::new());
    assert_eq!(parse_gitignore("/a", "\n\n"), Vec::<String>::new());
}

#[test]
fn parse_takes_no_pattern_for_more_than_a_name() {
    let rules = parse_gitignore("/a", "*.log\n!keep\n");
    assert_eq!(rules, vec![String::from("/a/*.log"), String::from("/a/!keep")]);
    assert!(!is_excluded("/a/x.log", &rules));
    assert!(is_excluded("/a/*.log", &rules));
}

#[test]
fn parse_keeps_text_that_is_not_ascii() {
    let rules = parse_gitignore("/données", "été\n");
    assert_eq!(rules, vec![String::from("/données/été")]);
}

#[test]
fn excluded_is_the_path_that_a_rule_names() {
    let rules = parse_gitignore("/a", "b\nc/d\n");
    assert!(is_excluded("/a/b", &rules));
    assert!(is_excluded("/a/c/d", &rules));
    assert!(!is_excluded("/a/c", &rules));
    assert!(!is_excluded("/a/b/e", &rules));
    assert!(!is_excluded("/a", &rules));
}

#[test]
fn excluded_matches_a_directory_rule_with_a_trailing_separator() {
    let rules = parse_gitignore("/a", "node_modules/\n");
    assert!(is_excluded("/a/node_modules", &rules));
}

#[test]
fn excluded_by_no_rule_is_nothing() {
    assert!(!is_excluded("/a/b", &Vec::new()));
}

#[test]
fn a_rule_does_not_reach_outside_its_directory() {
    let rules = parse_gitignore("/a/d", "x\n../s/x\n");
    assert!(is_excluded("/a/d/x", &rules));
    assert!(!is_excluded("/a/s/x", &rules));
    assert!(!is_excluded("/a/x", &rules));
    assert!(!is_excluded("/a", &rules));
}

#[test]
fn normalize_puts_a_path_with_a_period_directly_behind_the_directory() {
    assert_eq!(normalize_path("./x", "/w"), "/w./x");
    assert_eq!(normalize_path(".hidden", "/w"), "/w.hidden");
}

#[test]
fn normalize_puts_a_relative_path_below_the_directory() {
    assert_eq!(normalize_path("x/y", "/w"), "/w/x/y");
    assert_eq!(normalize_path("", "/w"), "/w/");
}

#[test]
fn normalize_keeps_an_absolute_path() {
    assert_eq!(normalize_path("/x/y", "/w"), "/x/y");
    assert_eq!(normalize_path("/", "/w"), "/");
}

#[test]
fn characters_are_read_in_order() {
    assert_eq!(characters("aé\n"), vec!['a', 'é', '\n']);
    assert_eq!(characters(""), Vec::<char>::new());
}

#[test]
fn split_ranges_cut_at_every_separator() {
    let text = characters("a,,bc,");
    assert_eq!(split_ranges(&text, ','), vec![(0, 1), (2, 2), (3, 5), (6, 6)]);
    assert_eq!(split_ranges(&characters(""), ','), vec![(0, 0)]);
    assert_eq!(split_ranges(&characters("abc"), ','), vec![(0, 3)]);
}

#[test]
fn contains_finds_a_text_anywhere() {
    assert!(contains("File not found: abc", "File not found"));
    assert!(contains("x File not found", "File not found"));
    assert!(contains("abc", ""));
    assert!(contains("", ""));
    assert!(contains("abc", "abc"));
    assert!(contains("aab", "ab"));
    assert!(!contains("abc", "abcd"));
    assert!(!contains("abc", "ac"));
    assert!(!contains("", "a"));
}

#[test]
fn same_text_compares_character_by_character() {
    assert!(same_text("abc", "abc"));
    assert!(same_text("", ""));
    assert!(!same_text("abc", "abd"));
    assert!(!same_text("abc", "ab"));
}
