use bindgen_helpers::cli::{extract_helper_config, CliArgsError, HelperConfigSource, ParsedArgs};

fn parse(args: &[&str]) -> Result<ParsedArgs, CliArgsError> {
    let args: Vec<Option<String>> = args.iter().map(|a| Some(a.to_string())).collect();
    extract_helper_config(&args)
}

fn config_path(args: &[&str], parsed: &ParsedArgs) -> Option<String> {
    match &parsed.helper_config {
        Some(HelperConfigSource::Arg(i)) => Some(args[*i].to_string()),
        Some(HelperConfigSource::Inline(path)) => Some(path.clone()),
        None => None,
    }
}

fn bindgen_args(args: &[&str], parsed: &ParsedArgs) -> Vec<String> {
    parsed.bindgen_args.iter().map(|i| args[*i].to_string()).collect()
}

#[test]
fn strips_space_separated_helper_config() {
    let args = [
        "bindgen-helper",
        "wrapper.h",
        "--helper-config",
        "helper.toml",
        "-o",
        "bindings.rs",
    ];
    let parsed = parse(&args).expect("helper config should parse");

    assert_eq!(config_path(&args, &parsed), Some("helper.toml".to_string()));
    assert_eq!(
        bindgen_args(&args, &parsed),
        vec!["bindgen-helper", "wrapper.h", "-o", "bindings.rs"]
    );
}

#[test]
fn strips_equals_helper_config() {
    let args = ["bindgen-helper", "wrapper.h", "--helper-config=helper.toml"];
    let parsed = parse(&args).expect("helper config should parse");

    assert_eq!(config_path(&args, &parsed), Some("helper.toml".to_string()));
    assert_eq!(bindgen_args(&args, &parsed), vec!["bindgen-helper", "wrapper.h"]);
}

#[test]
fn keeps_similarly_prefixed_bindgen_args() {
    let args = ["bindgen-helper", "wrapper.h", "--helper-configured", "value"];
    let parsed = parse(&args).expect("helper config should parse");

    assert_eq!(config_path(&args, &parsed), None);
    assert_eq!(
        bindgen_args(&args, &parsed),
        vec!["bindgen-helper", "wrapper.h", "--helper-configured", "value"]
    );
}

#[test]
fn rejects_missing_helper_config_value() {
    assert!(matches!(
        parse(&["bindgen-helper", "wrapper.h", "--helper-config"]),
        Err(CliArgsError::MissingHelperConfigValue)
    ));
}

#[test]
fn rejects_duplicate_helper_config() {
    assert!(matches!(
        parse(&[
            "bindgen-helper",
            "--helper-config",
            "first.toml",
            "--helper-config=second.toml",
        ]),
        Err(CliArgsError::DuplicateHelperConfig)
    ));
}

#[test]
fn empty_argument_list_gives_nothing() {
    let parsed = extract_helper_config(&Vec::new()).unwrap();
    assert!(parsed.bindgen_args.is_empty());
    assert_eq!(parsed.helper_config, None);
}

#[test]
fn non_utf8_arguments_go_to_bindgen_and_can_be_the_path() {
    let args = vec![
        Some("bindgen-helper".to_string()),
        None,
        Some("--helper-config".to_string()),
        None,
    ];
    let parsed = extract_helper_config(&args).unwrap();
    assert_eq!(parsed.bindgen_args, vec![0, 1]);
    assert_eq!(parsed.helper_config, Some(HelperConfigSource::Arg(3)));
}

#[test]
fn empty_inline_path_is_kept() {
    let args = ["bindgen-helper", "--helper-config="];
    let parsed = parse(&args).unwrap();
    assert_eq!(config_path(&args, &parsed), Some(String::new()));
    assert_eq!(bindgen_args(&args, &parsed), vec!["bindgen-helper"]);
}

#[test]
fn program_name_is_never_the_option() {
    let args = ["--helper-config", "wrapper.h"];
    let parsed = parse(&args).unwrap();
    assert_eq!(config_path(&args, &parsed), None);
    assert_eq!(bindgen_args(&args, &parsed), vec!["--helper-config", "wrapper.h"]);
}
