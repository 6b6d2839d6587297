use bindgen_helpers::config::{parse_case, parse_case_setting, parse_sort};
use bindgen_helpers::{
    BindingsBuilder, Builder, Case, DefineEnumConfig, DefineEnumSort, HelperConfig,
    HelperConfigError, IdentRenamerConfig, RenameEnumConfig, RenameEnumValueConfig,
    RenameItemConfig, RenameManyConfig,
};

fn renamer(remove: &[&str], case: Option<&str>) -> IdentRenamerConfig {
    IdentRenamerConfig {
        remove: remove.iter().map(|r| r.to_string()).collect(),
        case: case.map(|c| c.to_string()),
        renames: Vec::new(),
    }
}

fn define(name: &str, matcher: &str) -> DefineEnumConfig {
    DefineEnumConfig {
        name: name.to_string(),
        matcher: matcher.to_string(),
        repr: None,
        min: None,
        max: None,
        exclude: Vec::new(),
        sort: None,
        derives: None,
        renamer: IdentRenamerConfig::default(),
    }
}

fn helpers() -> BindingsBuilder {
    BindingsBuilder::new(Builder::default(), false)
}

#[test]
fn config_defaults_to_empty() {
    let config = HelperConfig::default();

    assert!(config.rename_item.is_empty());
    assert!(config.define_enum.is_empty());
}

#[test]
fn apply_rejects_anchored_rename_many() {
    let config = HelperConfig {
        rename_many: vec![RenameManyConfig {
            matcher: "^bad".to_string(),
            renamer: IdentRenamerConfig::default(),
        }],
        ..HelperConfig::default()
    };
    let mut helpers = helpers();

    assert!(matches!(
        config.apply_to(&mut helpers),
        Err(HelperConfigError::AnchoredRenameMany(value)) if value == "^bad"
    ));
}

#[test]
fn apply_rejects_invalid_regex() {
    let config = HelperConfig {
        define_enum: vec![define("ErrorCode", "[")],
        ..HelperConfig::default()
    };
    let mut helpers = helpers();

    assert!(matches!(
        config.apply_to(&mut helpers),
        Err(HelperConfigError::Regex { field: "define_enum.match", value, .. }) if value == "["
    ));
}

#[test]
fn apply_rejects_invalid_enum_value_match() {
    let config = HelperConfig {
        rename_enum_value: vec![RenameEnumValueConfig {
            enum_match: Some("[".to_string()),
            renamer: IdentRenamerConfig::default(),
        }],
        ..HelperConfig::default()
    };
    let mut helpers = helpers();

    assert!(matches!(
        config.apply_to(&mut helpers),
        Err(HelperConfigError::Regex { field: "rename_enum_value.enum_match", value, .. }) if value == "["
    ));
}

#[test]
fn ident_renamer_config_can_preserve_case_without_removals() {
    let renamer = IdentRenamerConfig {
        case: Some("none".to_owned()),
        ..IdentRenamerConfig::default()
    }
    .to_ident_renamer(Some(Case::Pascal))
    .unwrap();

    assert!(renamer.remove.is_none());
    assert!(renamer.case.is_none());
}

#[test]
fn apply_accepts_optional_rules() {
    let config = HelperConfig {
        rename_many: vec![RenameManyConfig {
            matcher: "prefix_".to_string(),
            renamer: renamer(&["^prefix_"], Some("camel")),
        }],
        rename_enum_value: vec![RenameEnumValueConfig {
            enum_match: Some("my_enum".to_string()),
            renamer: renamer(&["^MY_ENUM_"], None),
        }],
        define_enum: vec![DefineEnumConfig {
            repr: Some("i64".to_string()),
            min: Some(-10),
            max: Some(10),
            exclude: vec!["^ERR_SKIP$".to_string()],
            sort: Some("value_desc".to_string()),
            derives: Some(vec!["Debug".to_string()]),
            renamer: renamer(&["^ERR_"], None),
            ..define("ErrorCode", "^ERR_")
        }],
        ..HelperConfig::default()
    };
    let mut helpers = helpers();

    config.apply_to(&mut helpers).unwrap();
}

#[test]
fn parses_case_names_flexibly() {
    assert!(matches!(parse_case("Pascal").unwrap(), Case::Pascal));
    assert!(matches!(
        parse_case("screaming_snake").unwrap(),
        Case::UpperSnake
    ));
    assert!(matches!(
        parse_case("upper-kebab").unwrap(),
        Case::UpperKebab
    ));
}

#[test]
fn parses_case_disable_setting() {
    assert!(parse_case_setting("none").unwrap().is_none());
    assert!(parse_case_setting("preserve").unwrap().is_none());
}

#[test]
fn rejects_unknown_case() {
    assert!(matches!(
        parse_case("NotACase"),
        Err(HelperConfigError::UnknownCase(case)) if case == "NotACase"
    ));
}

#[test]
fn parses_sort_names_flexibly() {
    assert!(matches!(
        parse_sort("ValueDesc").unwrap(),
        DefineEnumSort::ValueDesc
    ));
    assert!(matches!(
        parse_sort("value_desc").unwrap(),
        DefineEnumSort::ValueDesc
    ));
}

#[test]
fn rejects_unknown_sort() {
    assert!(matches!(
        parse_sort("NotASort"),
        Err(HelperConfigError::UnknownSort(sort)) if sort == "NotASort"
    ));
}

#[test]
fn apply_reports_unknown_case_in_define_enum() {
    let config = HelperConfig {
        define_enum: vec![DefineEnumConfig {
            renamer: renamer(&[], Some("NotACase")),
            ..define("ErrorCode", "^ERR_")
        }],
        ..HelperConfig::default()
    };
    let mut helpers = helpers();

    assert!(matches!(
        config.apply_to(&mut helpers),
        Err(HelperConfigError::UnknownCase(case)) if case == "NotACase"
    ));
}

#[test]
fn apply_reports_invalid_remove_regex_before_unknown_case() {
    let config = HelperConfig {
        rename_many: vec![RenameManyConfig {
            matcher: "foo_.*".to_string(),
            renamer: renamer(&["("], Some("NotACase")),
        }],
        ..HelperConfig::default()
    };
    let mut helpers = helpers();

    assert!(matches!(
        config.apply_to(&mut helpers),
        Err(HelperConfigError::Regex { field: "remove", value, .. }) if value == "("
    ));
}

#[test]
fn apply_reports_unknown_sort_and_invalid_exclude() {
    let mut helpers = helpers();
    let config = HelperConfig {
        define_enum: vec![DefineEnumConfig {
            sort: Some("sideways".to_string()),
            ..define("ErrorCode", "^ERR_")
        }],
        ..HelperConfig::default()
    };
    assert!(matches!(
        config.apply_to(&mut helpers),
        Err(HelperConfigError::UnknownSort(sort)) if sort == "sideways"
    ));

    let config = HelperConfig {
        define_enum: vec![DefineEnumConfig {
            exclude: vec!["ok".to_string(), "[".to_string()],
            sort: Some("sideways".to_string()),
            ..define("ErrorCode", "^ERR_")
        }],
        ..HelperConfig::default()
    };
    assert!(matches!(
        config.apply_to(&mut helpers),
        Err(HelperConfigError::Regex { field: "define_enum.exclude", value, .. }) if value == "["
    ));
}

#[test]
fn apply_keeps_rules_before_an_error() {
    let config = HelperConfig {
        rename_item: vec![RenameItemConfig { c: "foo".to_string(), rust: "Foo".to_string() }],
        rename_many: vec![RenameManyConfig {
            matcher: "bad$".to_string(),
            renamer: IdentRenamerConfig::default(),
        }],
        ..HelperConfig::default()
    };
    let mut helpers = helpers();

    assert!(matches!(
        config.apply_to(&mut helpers),
        Err(HelperConfigError::AnchoredRenameMany(value)) if value == "bad$"
    ));
    assert_eq!(helpers.renamer().item_name("foo"), Some("Foo".to_string()));
}

#[test]
fn apply_installs_enum_rules() {
    let config = HelperConfig {
        rename_enum: vec![RenameEnumConfig {
            c: "my_enum".to_string(),
            rust: "MyEnum".to_string(),
            renamer: renamer(&["^I_SAID_"], None),
        }],
        define_enum: vec![DefineEnumConfig {
            renamer: renamer(&["^ERR_"], None),
            ..define("ErrorCode", "^ERR_")
        }],
        ..HelperConfig::default()
    };
    let mut helpers = helpers();
    config.apply_to(&mut helpers).unwrap();

    let renamer = helpers.renamer();
    assert_eq!(renamer.item_name("my_enum"), Some("MyEnum".to_string()));
    assert_eq!(
        renamer.enum_variant_name(Some("enum my_enum"), "I_SAID_YES"),
        Some("Yes".to_string())
    );
    assert_eq!(renamer.get_regex_str(), "^(enum )?my_enum$");
}

#[test]
fn try_apply_reports_an_uncompilable_enum_rule() {
    let config = HelperConfig {
        rename_enum: vec![RenameEnumConfig {
            c: "my_enum(".to_string(),
            rust: "MyEnum".to_string(),
            renamer: IdentRenamerConfig::default(),
        }],
        ..HelperConfig::default()
    };
    assert!(config.aborts());
    let mut helpers = helpers();
    assert!(config.try_apply_to(&mut helpers).is_none());
    assert_eq!(helpers.renamer().item_name("my_enum("), None);

    let stopped_first = HelperConfig {
        rename_many: vec![RenameManyConfig {
            matcher: "^x".to_string(),
            renamer: IdentRenamerConfig::default(),
        }],
        ..config
    };
    assert!(!stopped_first.aborts());
}

#[test]
fn empty_config_changes_nothing() {
    let mut helpers = helpers();
    helpers.rename_item("kept", "Kept");
    HelperConfig::default().apply_to(&mut helpers).unwrap();
    let renamer = helpers.renamer();
    assert_eq!(renamer.item_name("kept"), Some("Kept".to_string()));
    assert_eq!(renamer.get_regex_str(), "");
    assert!(!HelperConfig::default().aborts());
}

#[test]
fn apply_rejects_invalid_helper_config_case() {
    let config = HelperConfig {
        define_enum: vec![DefineEnumConfig {
            renamer: IdentRenamerConfig {
                case: Some("NotACase".into()),
                ..IdentRenamerConfig::default()
            },
            ..define("ErrorCode", "^ERR_")
        }],
        ..HelperConfig::default()
    };
    let mut helpers = helpers();
    let result = config.apply_to(&mut helpers);

    assert!(matches!(&result, Err(HelperConfigError::UnknownCase(c)) if c == "NotACase"));
    let message = result.unwrap_err().message();
    assert_eq!(message, "unknown case `NotACase`");
    assert!(message.contains("unknown case"));
    let mut renamer = bindgen_helpers::Renamer::new(false);
    std::mem::swap(&mut renamer, &mut helpers.into_parts().1);
    renamer.int_macro("ERR_FOO", 1);
    assert_eq!(renamer.render_define_enums(), "");
}

#[test]
fn error_messages_name_the_offending_value() {
    let cases = [
        (HelperConfigError::AnchoredRenameMany("^bad".into()), "`rename_many.match` must not contain `^` or `$`: `^bad`"),
        (HelperConfigError::UnknownSort("sideways".into()), "unknown define enum sort `sideways`"),
        (
            HelperConfigError::Regex {
                field: "define_enum.match",
                value: "[".into(),
                source: bindgen_helpers::Regex::new("[").unwrap_err(),
            },
            "invalid regex in `define_enum.match`: `[`",
        ),
        (
            HelperConfigError::Read {
                path: "missing.toml".into(),
                source: std::io::Error::other("gone"),
            },
            "failed to read helper config `missing.toml`",
        ),
    ];
    for (err, expected) in cases {
        assert_eq!(err.message(), expected);
    }
}
