use microgrep::highlight;

#[test]
fn highlight_marks_every_occurrence() {
    assert_eq!("[abc][abc]", highlight("abcabc", "abc", false));
}

#[test]
fn highlight_separates_occurrences() {
    assert_eq!("[abc]x[abc]", highlight("abcxabc", "abc", false));
}

#[test]
fn highlight_keeps_original_casing() {
    assert_eq!("[Rust]:", highlight("Rust:", "rust", true));
    assert_eq!("T[rUst] me.", highlight("TrUst me.", "RUST", true));
}

#[test]
fn highlight_empty_query_leaves_line_unchanged() {
    assert_eq!("safe, fast, productive.", highlight("safe, fast, productive.", "", false));
    assert_eq!("", highlight("", "", true));
}

#[test]
fn highlight_without_match_leaves_line_unchanged() {
    assert_eq!("Pick three.", highlight("Pick three.", "duct", false));
}

#[test]
fn highlight_case_sensitive_skips_other_casing() {
    assert_eq!("Rust and [rust]", highlight("Rust and rust", "rust", false));
}

#[test]
fn highlight_matches_do_not_overlap() {
    assert_eq!("[aa]a", highlight("aaa", "aa", false));
    assert_eq!("[aa][aa]", highlight("aaaa", "aa", false));
}

#[test]
fn stripping_markers_restores_the_line() {
    let line = "safe, fast, productive.";
    let highlighted = highlight(line, "a", false);
    assert_eq!("s[a]fe, f[a]st, productive.", highlighted);
    let stripped: String = highlighted.chars().filter(|c| *c != '[' && *c != ']').collect();
    assert_eq!(line, stripped);
}
