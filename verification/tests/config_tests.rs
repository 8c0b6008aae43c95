use microgrep::Config;

fn argv(items: &[&str]) -> Vec<String> {
    items.iter().map(|s| s.to_string()).collect()
}

#[test]
fn build_rejects_missing_arguments() {
    let r = Config::build(argv(&["microgrep", "query"]), None);
    assert_eq!(r.err(), Some("not enough arguments"));

    let r = Config::build(argv(&["microgrep"]), None);
    assert_eq!(r.err(), Some("not enough arguments"));
}

#[test]
fn build_takes_query_and_path_in_order() {
    let c = Config::build(argv(&["microgrep", "duct", "poem.txt"]), None).unwrap();
    assert_eq!(c.query, "duct");
    assert_eq!(c.file_path, "poem.txt");
}

#[test]
fn build_defaults_to_ignoring_case() {
    let c = Config::build(argv(&["microgrep", "q", "f"]), None).unwrap();
    assert!(c.ignore_case);
}

#[test]
fn build_env_false_disables_ignore_case() {
    let c = Config::build(argv(&["microgrep", "q", "f"]), Some("false".to_string())).unwrap();
    assert!(!c.ignore_case);

    let c = Config::build(argv(&["microgrep", "q", "f"]), Some("FALSE".to_string())).unwrap();
    assert!(!c.ignore_case);

    let c = Config::build(argv(&["microgrep", "q", "f"]), Some("False".to_string())).unwrap();
    assert!(!c.ignore_case);
}

#[test]
fn build_other_env_values_keep_ignore_case() {
    let c = Config::build(argv(&["microgrep", "q", "f"]), Some("true".to_string())).unwrap();
    assert!(c.ignore_case);

    let c = Config::build(argv(&["microgrep", "q", "f"]), Some("0".to_string())).unwrap();
    assert!(c.ignore_case);

    let c = Config::build(argv(&["microgrep", "q", "f"]), Some("".to_string())).unwrap();
    assert!(c.ignore_case);
}
