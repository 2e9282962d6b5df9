use minigrep::{run, Cli, Config};

fn args(words: &[&str]) -> Vec<String> {
    words.iter().map(|w| w.to_string()).collect()
}

#[test]
fn build_takes_query_and_path_after_the_program_name() {
    let conf = Config::build(args(&["minigrep", "needle", "hay.txt"]), None).unwrap();
    assert_eq!(conf.query, "needle");
    assert_eq!(conf.file_path, "hay.txt");
    assert!(!conf.ignore_case);
}

#[test]
fn build_ignores_further_arguments() {
    let conf = Config::build(args(&["minigrep", "q", "f", "extra", "more"]), None).unwrap();
    assert_eq!(conf.query, "q");
    assert_eq!(conf.file_path, "f");
}

#[test]
fn build_without_query_fails() {
    assert_eq!(Config::build(args(&[]), None).err(), Some("Didn't get a query string"));
    assert_eq!(Config::build(args(&["minigrep"]), Some("1")).err(), Some("Didn't get a query string"));
}

#[test]
fn build_without_path_fails() {
    assert_eq!(Config::build(args(&["minigrep", "needle"]), None).err(), Some("Didn't get a file path"));
}

#[test]
fn build_reads_the_case_switch() {
    let words = ["minigrep", "needle", "hay.txt"];
    assert!(Config::build(args(&words), Some("1")).unwrap().ignore_case);
    assert!(Config::build(args(&words), Some("true")).unwrap().ignore_case);
    for off in ["", "0", "false", "TRUE", "True", "yes", "11", "1 ", "tru", "truee"] {
        assert!(!Config::build(args(&words), Some(off)).unwrap().ignore_case);
    }
    assert!(!Config::build(args(&words), None).unwrap().ignore_case);
}

#[test]
fn build_with_cli_keeps_the_values() {
    let conf = Config::build_with_cli("needle".to_string(), "hay.txt".to_string(), 1).unwrap();
    assert_eq!(conf.query, "needle");
    assert_eq!(conf.file_path, "hay.txt");
    assert!(conf.ignore_case);
}

#[test]
fn build_with_cli_ignores_case_only_for_one() {
    for off in [0u8, 2, 3, 10, 255] {
        let conf = Config::build_with_cli("q".to_string(), "f".to_string(), off).unwrap();
        assert!(!conf.ignore_case);
    }
}

#[test]
fn build_from_parsed_command_line() {
    let cli = Cli { keyword: "rust".to_string(), file_path: "poem.txt".to_string(), ignore_case: 1 };
    let conf = Config::build_with_cli(cli.keyword, cli.file_path, cli.ignore_case).unwrap();
    let found = run(&conf, "Rust:\nsafe, fast, productive.\nPick three.");
    assert_eq!(found, vec!["1# Rust:".to_string()]);
}

#[test]
fn run_compares_as_configured() {
    let contents = "abc\nABC\nAbC";
    let exact = Config { query: "abc".to_string(), file_path: String::new(), ignore_case: false };
    assert_eq!(run(&exact, contents), vec!["1# abc".to_string()]);
    let folded = Config { query: "abc".to_string(), file_path: String::new(), ignore_case: true };
    assert_eq!(
        run(&folded, contents),
        vec!["1# abc".to_string(), "2# ABC".to_string(), "3# AbC".to_string()]
    );
}

#[test]
fn run_returns_nothing_without_a_match() {
    let conf = Config { query: "z".to_string(), file_path: String::new(), ignore_case: true };
    assert!(run(&conf, "one\ntwo\nthree").is_empty());
}
