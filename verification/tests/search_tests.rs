use microgrep::search;
use microgrep::search_case_insensitive;
use microgrep::search_lines;

#[test]
fn one_result() {
    let query = "duct";
    let contents = "\
Rust:
safe, fast, productive.
Pick three.";

    assert_eq!(vec!["safe, fast, productive."], search(query, contents));
}

#[test]
fn case_insensitive() {
    let query = "rUsT";
    let contents = "\
Rust:
safe, fast, productive.
Pick three.
Trust me.";

    assert_eq!(
        vec!["Rust:", "Trust me."],
        search_case_insensitive(query, contents)
    );
}

#[test]
fn empty_query_returns_every_line() {
    let contents = "\
Rust:
safe, fast, productive.
Pick three.";
    let all = vec!["Rust:", "safe, fast, productive.", "Pick three."];

    assert_eq!(all, search("", contents));
    assert_eq!(all, search_case_insensitive("", contents));
}

#[test]
fn empty_content_has_no_matches() {
    assert_eq!(search("duct", ""), Vec::<&str>::new());
    assert_eq!(search_case_insensitive("duct", ""), Vec::<&str>::new());
}

#[test]
fn case_sensitive_search_respects_case() {
    let contents = "\
Rust:
Trust me.";

    assert_eq!(vec!["Trust me."], search("rust", contents));
}

#[test]
fn result_keeps_file_order_and_duplicates() {
    let contents = "\
one match
nothing here
one match";

    assert_eq!(vec!["one match", "one match"], search("match", contents));
}

#[test]
fn search_lines_dispatches_on_case_mode() {
    let contents = "\
Rust:
Trust me.";

    assert_eq!(vec!["Trust me."], search_lines("rust", contents, false));
    assert_eq!(
        vec!["Rust:", "Trust me."],
        search_lines("rust", contents, true)
    );
}
