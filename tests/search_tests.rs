use fortune_kind::search::{contains_pattern, search_fortunes};

fn strings(v: &[&str]) -> Vec<String> {
    v.iter().map(|s| s.to_string()).collect()
}

#[test]
fn contains_pattern_basics() {
    assert!(contains_pattern(b"hello world", b"o w"));
    assert!(contains_pattern(b"hello", b"hello"));
    assert!(contains_pattern(b"hello", b""));
    assert!(contains_pattern(b"", b""));
    assert!(!contains_pattern(b"hello", b"hello!"));
    assert!(!contains_pattern(b"hello", b"ol"));
    assert!(contains_pattern(b"aaab", b"aab"));
}

#[test]
fn search_finds_planted_quote() {
    let files = strings(&[
        "nothing here\n%\nor here",
        "still nothing\n%\nthe needle is planted here\n%\nmore",
    ]);
    let found = search_fortunes(&files, "needle");
    assert_eq!(found, strings(&["the needle is planted here"]));
}

#[test]
fn search_without_match_is_empty() {
    let files = strings(&["alpha\n%\nbeta", "gamma"]);
    assert!(search_fortunes(&files, "delta").is_empty());
}

#[test]
fn search_returns_every_match_in_file_order() {
    let files = strings(&["cat one\n%\ndog\n%\ncat two", "a cat three\n%\nbird"]);
    assert_eq!(search_fortunes(&files, "cat"), strings(&["cat one", "cat two", "a cat three"]));
}

#[test]
fn search_of_empty_corpus_is_empty() {
    assert!(search_fortunes(&vec![], "x").is_empty());
}

#[test]
fn search_does_not_match_across_delimiter() {
    let files = strings(&["ab\n%\ncd"]);
    assert!(search_fortunes(&files, "b\n%\nc").is_empty());
}
