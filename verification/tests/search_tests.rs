use minigrep::contains_substring;
use minigrep::split_lines;

#[test]
fn search_case_insensitive() {
    let pattern = "duct";
    let content = "\
Rust:
safe, fast, productive.
Pick three.
Duct tape.";
    assert_eq!(
        vec!["safe, fast, productive.", "Duct tape."],
        minigrep::search_case_insensitive(pattern, content)
    );
}

#[test]
fn search_case_sensitive() {
    let pattern = "duct";
    let content = "\
Rust:
safe, fast, productive.
Pick three.
Duct tape.";
    assert_eq!(
        vec!["safe, fast, productive."],
        minigrep::search(pattern, content)
    );
}

#[test]
fn search_short_prefix_case_insensitive() {
    let content = "\
Rust:
safe, fast, productive.
Pick three.
Duct tape.";
    assert_eq!(
        vec!["safe, fast, productive.", "Duct tape."],
        minigrep::search_case_insensitive("du", content)
    );
}

#[test]
fn search_uppercase_pattern_no_match() {
    let content = "\
Rust:
safe, fast, productive.
Pick three.
Duct tape.";
    assert_eq!(Vec::<String>::new(), minigrep::search("RUST", content));
}

#[test]
fn empty_pattern_matches_every_line() {
    let content = "one\ntwo\nthree";
    assert_eq!(vec!["one", "two", "three"], minigrep::search("", content));
    assert_eq!(vec!["one", "two", "three"], minigrep::search_case_insensitive("", content));
}

#[test]
fn empty_text_has_no_lines() {
    assert_eq!(Vec::<String>::new(), minigrep::search("x", ""));
    assert_eq!(Vec::<String>::new(), minigrep::search("", ""));
    assert_eq!(Vec::<String>::new(), split_lines(""));
}

#[test]
fn split_lines_strips_breaks() {
    assert_eq!(vec!["one", "two"], split_lines("one\ntwo\n"));
    assert_eq!(vec!["one", "two"], split_lines("one\r\ntwo"));
    assert_eq!(vec!["a", "", "b"], split_lines("a\n\nb"));
}

#[test]
fn split_lines_keeps_lone_carriage_return() {
    assert_eq!(vec!["a\rb", "c\r"], split_lines("a\rb\nc\r"));
}

#[test]
fn search_is_idempotent() {
    let content = "Duct tape.\nsafe, fast, productive.";
    assert_eq!(minigrep::search("duct", content), minigrep::search("duct", content));
    assert_eq!(
        minigrep::search_case_insensitive("DUCT", content),
        minigrep::search_case_insensitive("DUCT", content)
    );
}

#[test]
fn case_insensitive_is_symmetric_in_case() {
    let content = "Duct tape.\nduct tape.";
    assert_eq!(
        vec!["Duct tape.", "duct tape."],
        minigrep::search_case_insensitive("DUCT", content)
    );
    assert_eq!(
        vec!["Duct tape.", "duct tape."],
        minigrep::search_case_insensitive("duct", content)
    );
}

#[test]
fn case_insensitive_result_covers_case_sensitive_result() {
    let content = "\
Rust:
safe, fast, productive.
Pick three.
Duct tape.";
    let sensitive = minigrep::search("duct", content);
    let insensitive = minigrep::search_case_insensitive("duct", content);
    for line in &sensitive {
        assert!(insensitive.contains(line));
    }
}

#[test]
fn contains_substring_follows_case_rule() {
    assert!(contains_substring("Duct tape.", "duct", true));
    assert!(!contains_substring("Duct tape.", "duct", false));
    assert!(contains_substring("Duct tape.", "Duct", false));
    assert!(contains_substring("anything", "", false));
    assert!(!contains_substring("short", "much longer pattern", false));
}

#[test]
fn matching_lowercases_only_for_comparison() {
    let content = "SAFE AND FAST";
    assert_eq!(vec!["SAFE AND FAST"], minigrep::search_case_insensitive("safe", content));
}
