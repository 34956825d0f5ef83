use minigrep::{run, ArgumentError, Config, CASE_INSENSITIVE};

fn list(args: &[&str]) -> Vec<String> {
    args.iter().map(|arg| arg.to_string()).collect()
}

#[test]
fn query_and_filename_follow_the_program_name() {
    let config = Config::new(&list(&["minigrep", "needle", "haystack.txt"]), None).unwrap();
    assert_eq!(config.query, "needle");
    assert_eq!(config.filename, "haystack.txt");
    assert!(config.case_sensitive);
}

#[test]
fn missing_query_is_reported() {
    assert_eq!(Config::new(&list(&["minigrep"]), None), Err(ArgumentError::MissingQuery));
    assert_eq!(Config::new(&[], None), Err(ArgumentError::MissingQuery));
    assert_eq!(Config::new(&[], Some("1")), Err(ArgumentError::MissingQuery));
}

#[test]
fn missing_filename_is_reported() {
    assert_eq!(
        Config::new(&list(&["minigrep", "needle"]), None),
        Err(ArgumentError::MissingFilename)
    );
    assert_eq!(
        Config::new(&list(&["minigrep", "needle"]), Some("")),
        Err(ArgumentError::MissingFilename)
    );
}

#[test]
fn switch_set_to_any_value_turns_case_sensitivity_off() {
    let args = list(&["minigrep", "needle", "haystack.txt"]);
    for value in ["", "1", "0", "false", "no", " "] {
        let config = Config::new(&args, Some(value)).unwrap();
        assert!(!config.case_sensitive);
        assert_eq!(config.query, "needle");
        assert_eq!(config.filename, "haystack.txt");
    }
    assert!(Config::new(&args, None).unwrap().case_sensitive);
}

#[test]
fn further_arguments_are_ignored() {
    let config = Config::new(&list(&["minigrep", "q", "f", "extra", "more"]), None).unwrap();
    assert_eq!(
        config,
        Config { query: "q".to_string(), filename: "f".to_string(), case_sensitive: true }
    );
}

#[test]
fn empty_arguments_are_arguments() {
    let config = Config::new(&list(&["", "", ""]), None).unwrap();
    assert_eq!(config.query, "");
    assert_eq!(config.filename, "");
}

#[test]
fn same_arguments_give_the_same_configuration() {
    let args = list(&["minigrep", "needle", "haystack.txt"]);
    assert_eq!(Config::new(&args, Some("x")), Config::new(&args, Some("x")));
    assert_eq!(Config::new(&args, None), Config::new(&args, None));
    assert_eq!(Config::new(&args[..2], None), Config::new(&args[..2], None));
    assert_ne!(Config::new(&args, None), Config::new(&args, Some("")));
}

#[test]
fn errors_have_their_messages() {
    assert_eq!(ArgumentError::MissingQuery.message(), "Didn't get query string.");
    assert_eq!(ArgumentError::MissingFilename.message(), "Filename missing!");
}

#[test]
fn run_searches_as_the_configuration_says() {
    let content = "Rust:\n  safe, fast, productive\nPick three.\nTrust me.";
    let args = list(&["minigrep", "rUsT", "poem.txt"]);
    let exact = Config::new(&args, None).unwrap();
    assert_eq!(run(&exact, content), Vec::<&str>::new());
    let folded = Config::new(&args, Some("")).unwrap();
    assert_eq!(run(&folded, content), vec!["Rust:", "Trust me."]);
    let plain = Config::new(&list(&["minigrep", "fast", "poem.txt"]), None).unwrap();
    assert_eq!(run(&plain, content), vec!["safe, fast, productive"]);
}

#[test]
fn switch_has_its_name() {
    assert_eq!(CASE_INSENSITIVE, "CASE_INSENSITIVE");
}
