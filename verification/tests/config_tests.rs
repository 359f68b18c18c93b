use minigrep::Config;
use minigrep::RunError;
use minigrep::run;

fn args(list: &[&str]) -> Vec<String> {
    list.iter().map(|s| s.to_string()).collect()
}

#[test]
fn from_args_builds_config() {
    let config = Config::from_args(&args(&["minigrep", "duct", "poem.txt"]), false).unwrap();
    assert_eq!("duct", config.pattern);
    assert_eq!("poem.txt", config.path);
    assert!(config.is_case_sensitive);
}

#[test]
fn from_args_env_toggle_disables_case_sensitivity() {
    let config = Config::from_args(&args(&["minigrep", "duct", "poem.txt"]), true).unwrap();
    assert!(!config.is_case_sensitive);
}

#[test]
fn from_args_rejects_missing_arguments() {
    assert!(matches!(
        Config::from_args(&args(&["minigrep", "duct"]), false),
        Err(RunError::MissingArgument)
    ));
    assert!(matches!(
        Config::from_args(&args(&["minigrep"]), false),
        Err(RunError::MissingArgument)
    ));
    assert!(matches!(
        Config::from_args(&args(&[]), false),
        Err(RunError::MissingArgument)
    ));
}

#[test]
fn run_dispatches_on_case_sensitivity() {
    let content = "\
Rust:
safe, fast, productive.
Pick three.
Duct tape.";
    let sensitive = Config {
        pattern: "duct".to_string(),
        path: "poem.txt".to_string(),
        is_case_sensitive: true,
    };
    let insensitive = Config {
        pattern: "duct".to_string(),
        path: "poem.txt".to_string(),
        is_case_sensitive: false,
    };
    assert_eq!(vec!["safe, fast, productive."], run(&sensitive, content));
    assert_eq!(
        vec!["safe, fast, productive.", "Duct tape."],
        run(&insensitive, content)
    );
}

#[test]
fn read_error_message_names_the_path() {
    let error = RunError::ReadError {
        path: "no/such/file.txt".to_string(),
    };
    let message = error.message();
    assert!(message.contains("no/such/file.txt"));
    assert_eq!("error reading `no/such/file.txt`", message);
}

#[test]
fn missing_argument_message_is_fixed() {
    assert_eq!(
        "missing pattern or path argument",
        RunError::MissingArgument.message()
    );
}
