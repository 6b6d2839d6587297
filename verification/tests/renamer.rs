use bindgen_helpers::{BindingsBuilder, Builder, Case, DefineEnum, IdentRenamer, Regex, Renamer};

fn enum_renamer(remove: &[&str], renames: &[(&str, &str)], case: Option<Case>) -> IdentRenamer {
    IdentRenamer {
        remove: if remove.is_empty() {
            None
        } else {
            Some(remove.iter().map(|r| Regex::new(r).unwrap()).collect())
        },
        renames: renames.iter().map(|(a, b)| (a.to_string(), b.to_string())).collect(),
        case,
    }
}

fn rename_enum(cb: &mut Renamer, c: &str, rust: &str, renamer: IdentRenamer) {
    cb.rename_item(c, rust);
    cb.rename_enum_val(Some(&format!("^(enum )?{c}$")), renamer);
}

const VARIANTS: [&str; 4] = ["I_SAID_YES", "I_SAID_NO", "I_SAID_RENAME_IT", "I_DID_NOT_SAY_ANYTHING"];

fn variants(cb: &Renamer) -> Vec<String> {
    VARIANTS
        .iter()
        .map(|v| cb.enum_variant_name(Some("enum my_enum"), v).unwrap())
        .collect()
}

#[test]
fn renames_enum_variants_to_pascal_by_default() {
    let mut cb = Renamer::new(true);
    rename_enum(&mut cb, "my_enum", "MyEnum", IdentRenamer::default_case(Case::Pascal));

    assert_eq!(cb.item_name("my_enum"), Some("MyEnum".to_string()));
    assert_eq!(variants(&cb), vec!["ISaidYes", "ISaidNo", "ISaidRenameIt", "IDidNotSayAnything"]);
}

#[test]
fn removals_then_renames_then_case() {
    let mut cb = Renamer::new(true);
    rename_enum(
        &mut cb,
        "my_enum",
        "MyEnum",
        enum_renamer(
            &["^I_SAID_", "DID_NOT", "_ANYTHING$", "^I_SAID_(RENAME_)?"],
            &[("RENAME_IT", "Renamed"), ("YES", "Maybe")],
            Some(Case::Pascal),
        ),
    );

    assert_eq!(variants(&cb), vec!["Maybe", "No", "Renamed", "ISay"]);
}

#[test]
fn snake_case_variants() {
    let mut cb = Renamer::new(true);
    rename_enum(&mut cb, "my_enum", "MyEnum", enum_renamer(&[], &[], Some(Case::Snake)));

    assert_eq!(
        variants(&cb),
        vec!["i_said_yes", "i_said_no", "i_said_rename_it", "i_did_not_say_anything"]
    );
}

#[test]
fn removal_inside_typedef_enum_names() {
    let mut cb = Renamer::new(true);
    for (c, rust) in [("my_enum1", "MyEnum1"), ("my_enum2", "MyEnum2")] {
        rename_enum(&mut cb, c, rust, enum_renamer(&["fo"], &[], Some(Case::Pascal)));
    }
    assert_eq!(cb.enum_variant_name(Some("enum my_enum1"), "foo1"), Some("O1".to_string()));
    assert_eq!(cb.enum_variant_name(Some("my_enum2"), "foo2"), Some("O2".to_string()));
    assert_eq!(cb.enum_variant_name(Some("my_enum3"), "foo3"), None);
    assert_eq!(cb.get_regex_str(), "^(enum )?my_enum1$|^(enum )?my_enum2$");
}

#[test]
fn unnamed_enum_rule_applies_only_to_unnamed_enums() {
    let mut cb = Renamer::new(true);
    cb.rename_enum_val(None, enum_renamer(&[], &[], Some(Case::Snake)));
    assert_eq!(cb.enum_variant_name(None, "FOO_BAR"), Some("foo_bar".to_string()));
    assert_eq!(cb.enum_variant_name(Some("my_enum"), "FOO_BAR"), None);
    assert_eq!(cb.get_regex_str(), "");
}

#[test]
fn rename_many_renames_matching_items() {
    let mut helpers = BindingsBuilder::new(Builder::default(), true);
    helpers.rename_many(
        Regex::new("foo_.*").unwrap(),
        IdentRenamer {
            remove: Some(vec![Regex::new("^foo_").unwrap()]),
            case: Some(Case::Pascal),
            ..IdentRenamer::default()
        },
    );
    let cb = helpers.renamer();
    assert_eq!(cb.item_name("foo_status"), Some("Status".to_string()));
    assert_eq!(cb.item_name("foo_mode"), Some("Mode".to_string()));
    assert_eq!(cb.item_name("bar"), None);
    assert_eq!(cb.enum_variant_name(Some("foo_status"), "FOO_STATUS_OK"), None);
    assert_eq!(cb.get_regex_str(), "foo_.*");
}

#[test]
fn exact_rename_wins_and_latest_exact_rename_wins() {
    let mut cb = Renamer::new(false);
    cb.rename_many(Regex::new("foo").unwrap(), IdentRenamer::default_case(Case::Upper));
    cb.rename_item("foo", "First");
    cb.rename_item("foo", "Second");
    assert_eq!(cb.item_name("foo"), Some("Second".to_string()));
    assert_eq!(cb.item_name("foobar"), Some("FOOBAR".to_string()));
    assert!(!cb.debug());
}

#[test]
fn int_macro_feeds_every_define_enum() {
    let mut cb = Renamer::new(false);
    cb.define_enum(DefineEnum::new("A", Regex::new("^A_").unwrap(), IdentRenamer::default()));
    cb.define_enum(DefineEnum::new("Both", Regex::new("_X$").unwrap(), IdentRenamer::default()));
    cb.int_macro("A_X", 1);
    cb.int_macro("B_X", 2);
    let out = cb.render_define_enums();
    assert_eq!(
        out,
        "\n#[repr(u32)]\n#[derive(Debug, Clone, Copy, Hash, PartialEq, Eq)]\npub enum A {\n    A_X = (A_X as u32),\n}\n\n#[repr(u32)]\n#[derive(Debug, Clone, Copy, Hash, PartialEq, Eq)]\npub enum Both {\n    A_X = (A_X as u32),\n    B_X = (B_X as u32),\n}\n"
    );
    assert_eq!(cb.render_define_enums(), "");
}
