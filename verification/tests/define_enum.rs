use bindgen_helpers::{Case, DefineEnum, DefineEnumSort, IdentRenamer, Regex, Renamer};

fn renamer(remove: &[&str]) -> IdentRenamer {
    IdentRenamer {
        remove: if remove.is_empty() {
            None
        } else {
            Some(remove.iter().map(|r| Regex::new(r).unwrap()).collect())
        },
        ..IdentRenamer::default_case(Case::Pascal)
    }
}

fn collect(renamer: &mut Renamer, macros: &[(&str, i64)]) {
    for (name, value) in macros {
        renamer.int_macro(name, *value);
    }
}

#[test]
fn define_enum_minimal_renders_matching_macros() {
    let mut cb = Renamer::new(true);
    cb.define_enum(DefineEnum::new("ErrorCode", Regex::new("^ERR_").unwrap(), renamer(&[])));
    collect(&mut cb, &[("ERR_FOO", 1), ("ERR_BAR", 2), ("OTHER_VALUE", 12)]);

    assert_eq!(
        cb.render_define_enums(),
        "\n#[repr(u32)]\n#[derive(Debug, Clone, Copy, Hash, PartialEq, Eq)]\npub enum ErrorCode {\n    ErrFoo = (ERR_FOO as u32),\n    ErrBar = (ERR_BAR as u32),\n}\n"
    );
}

#[test]
fn define_enum_min_max_bounds_values() {
    let mut cb = Renamer::new(true);
    cb.define_enum(
        DefineEnum::new("ErrorCode", Regex::new("^ERR_").unwrap(), renamer(&["^ERR_"]))
            .with_repr("i32")
            .min(0)
            .max(3),
    );
    collect(
        &mut cb,
        &[("ERR_TOO_LOW", -1), ("ERR_LOW", 0), ("ERR_MID", 2), ("ERR_HIGH", 3), ("ERR_TOO_HIGH", 4)],
    );

    assert_eq!(
        cb.render_define_enums(),
        "\n#[repr(i32)]\n#[derive(Debug, Clone, Copy, Hash, PartialEq, Eq)]\npub enum ErrorCode {\n    Low = (ERR_LOW as i32),\n    Mid = (ERR_MID as i32),\n    High = (ERR_HIGH as i32),\n}\n"
    );
}

#[test]
fn define_enum_all_options() {
    let mut cb = Renamer::new(true);
    let variants = IdentRenamer {
        renames: vec![("WOULD_BLOCK".to_string(), "WouldBlock".to_string())],
        ..renamer(&["^ERR_"])
    };
    cb.define_enum(
        DefineEnum::new("ErrorCode", Regex::new("^ERR_").unwrap(), variants)
            .with_repr("u32")
            .exclude(Regex::new("_PRIVATE$").unwrap())
            .sort(DefineEnumSort::Value)
            .derives(
                ["Debug", "Copy", "Clone", "PartialEq", "Eq", "serde::Serialize"]
                    .iter()
                    .map(|d| d.to_string())
                    .collect(),
            ),
    );
    collect(
        &mut cb,
        &[("ERR_WOULD_BLOCK", 11), ("ERR_BAR", 2), ("ERR_PRIVATE", 20), ("ERR_FOO", 1), ("OTHER_VALUE", 12)],
    );

    assert_eq!(
        cb.render_define_enums(),
        "\n#[repr(u32)]\n#[derive(Debug, Copy, Clone, PartialEq, Eq, serde::Serialize)]\npub enum ErrorCode {\n    Foo = (ERR_FOO as u32),\n    Bar = (ERR_BAR as u32),\n    WouldBlock = (ERR_WOULD_BLOCK as u32),\n}\n"
    );
}

#[test]
fn define_enum_sorts_by_name() {
    let mut cb = Renamer::new(true);
    cb.define_enum(
        DefineEnum::new("ErrorCode", Regex::new("^ERR_").unwrap(), renamer(&["^ERR_"]))
            .sort(DefineEnumSort::Name),
    );
    collect(&mut cb, &[("ERR_ZULU", 1), ("ERR_ALPHA", 3), ("ERR_MIDDLE", 2)]);

    assert_eq!(
        cb.render_define_enums(),
        "\n#[repr(u32)]\n#[derive(Debug, Clone, Copy, Hash, PartialEq, Eq)]\npub enum ErrorCode {\n    Alpha = (ERR_ALPHA as u32),\n    Middle = (ERR_MIDDLE as u32),\n    Zulu = (ERR_ZULU as u32),\n}\n"
    );
}

#[test]
fn define_enum_sorts_by_value_desc() {
    let mut cb = Renamer::new(true);
    cb.define_enum(
        DefineEnum::new("ErrorCode", Regex::new("^ERR_").unwrap(), renamer(&["^ERR_"]))
            .sort(DefineEnumSort::ValueDesc),
    );
    collect(&mut cb, &[("ERR_LOW", 1), ("ERR_HIGH", 3), ("ERR_MIDDLE", 2)]);

    assert_eq!(
        cb.render_define_enums(),
        "\n#[repr(u32)]\n#[derive(Debug, Clone, Copy, Hash, PartialEq, Eq)]\npub enum ErrorCode {\n    High = (ERR_HIGH as u32),\n    Middle = (ERR_MIDDLE as u32),\n    Low = (ERR_LOW as u32),\n}\n"
    );
}

#[test]
fn render_is_empty_without_values_and_drains() {
    let mut d = DefineEnum::new("E", Regex::new("^ERR_").unwrap(), renamer(&[]));
    assert_eq!(d.render(), "");
    d.record_matching_macro("ERR_A", 7);
    d.record_matching_macro("OTHER", 8);
    assert_eq!(
        d.render(),
        "\n#[repr(u32)]\n#[derive(Debug, Clone, Copy, Hash, PartialEq, Eq)]\npub enum E {\n    ErrA = (ERR_A as u32),\n}\n"
    );
    assert_eq!(d.render(), "");
}

#[test]
fn repr_follows_the_value_range() {
    let cases: [(&[i64], &str); 5] = [
        (&[0, 4_294_967_295], "u32"),
        (&[0, 4_294_967_296], "u64"),
        (&[-1, 2_147_483_647], "i32"),
        (&[-2_147_483_649, 0], "i64"),
        (&[-1, 2_147_483_648], "i64"),
    ];
    for (values, repr) in cases {
        let mut d = DefineEnum::new("E", Regex::new("^V").unwrap(), IdentRenamer::default());
        for (i, v) in values.iter().enumerate() {
            d.record_matching_macro(&format!("V{i}"), *v);
        }
        let out = d.render();
        assert!(out.starts_with(&format!("\n#[repr({repr})]\n")), "{out}");
    }
}

#[test]
fn empty_derives_omit_the_attribute() {
    let mut d = DefineEnum::new("E", Regex::new("^V").unwrap(), IdentRenamer::default())
        .derives(Vec::new());
    d.record_matching_macro("V_ONE", 1);
    assert_eq!(d.render(), "\n#[repr(u32)]\npub enum E {\n    V_ONE = (V_ONE as u32),\n}\n");
}

#[test]
fn is_match_honours_exclusions() {
    let d = DefineEnum::new("E", Regex::new("^ERR_").unwrap(), IdentRenamer::default())
        .exclude(Regex::new("_PRIVATE$").unwrap());
    assert!(d.is_match("ERR_FOO"));
    assert!(!d.is_match("ERR_PRIVATE"));
    assert!(!d.is_match("OTHER"));
}

#[test]
fn stable_name_sort_keeps_collection_order_of_equal_names() {
    let mut d = DefineEnum::new("E", Regex::new("^(A|B)_").unwrap(), renamer(&["^(A|B)_"]))
        .sort(DefineEnumSort::Name)
        .with_repr("u8");
    d.record_matching_macro("B_X", 1);
    d.record_matching_macro("A_X", 2);
    d.record_matching_macro("A_W", 3);
    assert_eq!(
        d.render(),
        "\n#[repr(u8)]\n#[derive(Debug, Clone, Copy, Hash, PartialEq, Eq)]\npub enum E {\n    W = (A_W as u8),\n    X = (B_X as u8),\n    X = (A_X as u8),\n}\n"
    );
}
