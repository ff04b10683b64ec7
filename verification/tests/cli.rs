use oxyl::cli::{parse_cli, parse_color, resolve_style, CliError, ColorChoice};
use oxyl::Style;

fn args(v: &[&str]) -> Vec<String> {
    v.iter().map(|s| s.to_string()).collect()
}

#[test]
fn color_names() {
    assert_eq!(parse_color("auto"), Some(ColorChoice::Auto));
    assert_eq!(parse_color("always"), Some(ColorChoice::Always));
    assert_eq!(parse_color("never"), Some(ColorChoice::Never));
    assert_eq!(parse_color("Never"), None);
    assert_eq!(parse_color(""), None);
}

#[test]
fn explicit_choice_ignores_environment() {
    assert_eq!(resolve_style(ColorChoice::Always, false, false, true), Style::Ansi);
    assert_eq!(resolve_style(ColorChoice::Never, true, true, false), Style::Plain);
}

#[test]
fn auto_choice_follows_environment_then_terminal() {
    assert_eq!(resolve_style(ColorChoice::Auto, false, true, true), Style::Ansi);
    assert_eq!(resolve_style(ColorChoice::Auto, true, false, true), Style::Plain);
    assert_eq!(resolve_style(ColorChoice::Auto, true, false, false), Style::Ansi);
    assert_eq!(resolve_style(ColorChoice::Auto, false, false, false), Style::Plain);
}

#[test]
fn flags_and_file() {
    let o = parse_cli(&args(&["--dump-ast", "-V", "doc.tex", "--color", "always"])).unwrap();
    assert!(o.dump_ast);
    assert!(!o.dump_tokens);
    assert!(o.show_version);
    assert!(!o.show_help);
    assert_eq!(o.color, ColorChoice::Always);
    assert_eq!(o.file, Some("doc.tex".to_string()));
}

#[test]
fn defaults_with_no_arguments() {
    let o = parse_cli(&args(&[])).unwrap();
    assert!(!o.dump_ast && !o.dump_tokens && !o.show_help && !o.show_version);
    assert_eq!(o.color, ColorChoice::Auto);
    assert_eq!(o.file, None);
}

#[test]
fn color_with_equals_and_alias() {
    let o = parse_cli(&args(&["--color=never", "-h", "--dump-tokens"])).unwrap();
    assert_eq!(o.color, ColorChoice::Never);
    assert!(o.show_help && o.dump_tokens);
    let o = parse_cli(&args(&["--color=always", "--no-color"])).unwrap();
    assert_eq!(o.color, ColorChoice::Never);
}

#[test]
fn each_usage_error() {
    assert!(matches!(parse_cli(&args(&["--color=blue"])), Err(CliError::BadColor(v)) if v == "blue"));
    assert!(matches!(parse_cli(&args(&["--color", "red"])), Err(CliError::BadColor(v)) if v == "red"));
    assert!(matches!(parse_cli(&args(&["--color"])), Err(CliError::MissingColorValue)));
    assert!(matches!(parse_cli(&args(&["-x"])), Err(CliError::UnknownFlag(f)) if f == "-x"));
    assert!(matches!(parse_cli(&args(&["a.tex", "b.tex"])), Err(CliError::TooManyPositionals)));
}

#[test]
fn usage_error_messages() {
    assert_eq!(
        CliError::BadColor("blue".to_string()).message(),
        "oxyl: --color expects auto, always, or never (got 'blue')."
    );
    assert_eq!(
        CliError::MissingColorValue.message(),
        "oxyl: --color needs a value (auto, always, never)."
    );
    assert_eq!(CliError::UnknownFlag("-q".to_string()).message(), "oxyl: unknown flag '-q'. Try --help.");
    assert_eq!(
        CliError::TooManyPositionals.message(),
        "oxyl: too many positional arguments. Try --help."
    );
}
