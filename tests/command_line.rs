use dirstamp::cli::{parse_args, text_eq, usage_text, version_line, Command, RunOptions, USAGE_BODY};

fn args(v: &[&str]) -> Vec<String> {
    v.iter().map(|s| s.to_string()).collect()
}

#[test]
fn unknown_flag_is_an_error() {
    assert_eq!(parse_args(&args(&["--bogus"])), Command::Unknown("--bogus".to_string()));
    assert_eq!(parse_args(&args(&["-C", "-x", "dir"])), Command::Unknown("-x".to_string()));
    assert_eq!(parse_args(&args(&["-"])), Command::Unknown("-".to_string()));
}

#[test]
fn no_arguments_is_a_dry_run_here() {
    assert_eq!(
        parse_args(&args(&[])),
        Command::Run(RunOptions { confirm: false, show_dates: false, path: None })
    );
}

#[test]
fn flags_and_root() {
    assert_eq!(
        parse_args(&args(&["-C", "--show-dates", "some/dir", "--bogus"])),
        Command::Run(RunOptions { confirm: true, show_dates: true, path: Some("some/dir".to_string()) })
    );
    assert_eq!(
        parse_args(&args(&["--confirm", "-D"])),
        Command::Run(RunOptions { confirm: true, show_dates: true, path: None })
    );
}

#[test]
fn help_and_version_stop_parsing() {
    assert_eq!(parse_args(&args(&["-h", "--bogus"])), Command::Help);
    assert_eq!(parse_args(&args(&["-C", "--help"])), Command::Help);
    assert_eq!(parse_args(&args(&["-V"])), Command::Version);
    assert_eq!(parse_args(&args(&["--version"])), Command::Version);
}

#[test]
fn texts_compare_by_characters() {
    assert!(text_eq("-h", "-h"));
    assert!(!text_eq("-h", "-hh"));
    assert!(!text_eq("-C", "-D"));
    assert!(text_eq("", ""));
}

#[test]
fn version_lines() {
    assert_eq!(version_line("0.3.1", Some("abc123"), Some("2024-01-02 03:04:05 UTC")), "dirstamp 0.3.1 (abc123 2024-01-02 03:04:05 UTC)");
    assert_eq!(version_line("0.3.1", Some("abc123"), None), "dirstamp 0.3.1 (abc123)");
    assert_eq!(version_line("0.3.1", Some(""), Some("x")), "dirstamp 0.3.1");
    assert_eq!(version_line("0.3.1", None, Some("x")), "dirstamp 0.3.1");
}

#[test]
fn usage_names_the_version() {
    let u = usage_text("1.2.0");
    assert!(u.starts_with("dirstamp 1.2.0\n\nUsage:\n"));
    assert!(u.ends_with("-h, --help        Show this help message\n"));
    assert_eq!(u, format!("dirstamp 1.2.0{}", USAGE_BODY));
}
