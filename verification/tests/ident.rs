use bindgen_helpers::config::normalize_name;
use bindgen_helpers::{Case, IdentRenamer, Regex};

#[test]
fn default_renamer_keeps_names() {
    assert_eq!(IdentRenamer::default().apply("I_SAID_YES"), "I_SAID_YES");
}

#[test]
fn explicit_rename_wins_over_case() {
    let r = IdentRenamer {
        remove: Some(vec![Regex::new("^ERR_").unwrap()]),
        renames: vec![("WOULD_BLOCK".to_string(), "WouldBlock".to_string())],
        case: Some(Case::Snake),
    };
    assert_eq!(r.apply("ERR_WOULD_BLOCK"), "WouldBlock");
    assert_eq!(r.apply("ERR_NOT_FOUND"), "not_found");
}

#[test]
fn later_rename_of_the_same_name_wins() {
    let r = IdentRenamer {
        renames: vec![
            ("A".to_string(), "First".to_string()),
            ("A".to_string(), "Second".to_string()),
        ],
        ..IdentRenamer::default()
    };
    assert_eq!(r.apply("A"), "Second");
}

#[test]
fn removals_apply_in_order_to_every_match() {
    let r = IdentRenamer {
        remove: Some(vec![Regex::new("_").unwrap(), Regex::new("^AB").unwrap()]),
        ..IdentRenamer::default()
    };
    assert_eq!(r.apply("A_B_C_D"), "CD");
}

#[test]
fn regex_new_reports_invalid_patterns() {
    assert!(Regex::new("[").is_err());
    let re = Regex::new("a+b").unwrap();
    assert_eq!(re.as_str(), "a+b");
    assert!(re.is_match("xaab"));
    assert!(!re.is_match("b"));
    assert_eq!(re.remove_all("aab-ab-b"), "--b");
}

#[test]
fn each_case_converts() {
    let cases = [
        (Case::Snake, "my_var_name"),
        (Case::UpperSnake, "MY_VAR_NAME"),
        (Case::Ada, "My_Var_Name"),
        (Case::Kebab, "my-var-name"),
        (Case::UpperKebab, "MY-VAR-NAME"),
        (Case::Train, "My-Var-Name"),
        (Case::Flat, "myvarname"),
        (Case::UpperFlat, "MYVARNAME"),
        (Case::Pascal, "MyVarName"),
        (Case::Camel, "myVarName"),
        (Case::Lower, "my var name"),
        (Case::Upper, "MY VAR NAME"),
        (Case::Title, "My Var Name"),
        (Case::Sentence, "My var name"),
        (Case::Constant, "MY_VAR_NAME"),
        (Case::Cobol, "MY-VAR-NAME"),
        (Case::UpperCamel, "MyVarName"),
    ];
    for (case, expected) in cases {
        assert_eq!(IdentRenamer::default_case(case).apply("my_var_name"), expected);
    }
}

#[test]
fn normalize_drops_separators_and_lowercases() {
    assert_eq!(normalize_name("Screaming_Snake-CASE"), "screamingsnakecase");
    assert_eq!(normalize_name("İ"), "i\u{307}");
    assert_eq!(normalize_name(""), "");
}
