//! Helper configuration: rename and define-enum rules, as a TOML file describes them, and
//! their application to a [`BindingsBuilder`].

use vstd::prelude::*;
use crate::case::Case;
use crate::define_enum::{
    DefineEnum, DefineEnumModel, DefineEnumSort, ValueModel, goes_before, lemma_sort_values,
    sort_values,
    strings_view,
};
use crate::helpers::BindingsBuilder;
use crate::renamer::RenamerModel;
use crate::ident::{IdentRenamer, IdentRenamerModel, pairs_view, regexes_view};
use crate::pattern::{Regex, regex_valid};
use crate::text::{
    ascii_lower, char_lower, chars_less, chars_of, char_lowercase, contains_char, is_ascii_upper,
    str_equal, string_of,
};

verus! {

#[verifier::external_type_specification]
#[verifier::external_body]
pub struct ExTomlError(toml::de::Error);

/// Helper-specific configuration loaded by the `bindgen-helper` CLI.
#[derive(Debug)]
pub struct HelperConfig {
    /// Enable debug warnings from the helper parse callbacks.
    pub debug: bool,
    /// Exact item rename rules.
    pub rename_item: Vec<RenameItemConfig>,
    /// Regex item rename rules.
    pub rename_many: Vec<RenameManyConfig>,
    /// Enum and enum variant rename rules.
    pub rename_enum: Vec<RenameEnumConfig>,
    /// Enum variant rename rules without renaming the enum item itself.
    pub rename_enum_value: Vec<RenameEnumValueConfig>,
    /// Define-backed enum generation rules.
    pub define_enum: Vec<DefineEnumConfig>,
}

/// Exact C item rename.
#[derive(Debug)]
pub struct RenameItemConfig {
    /// C item name as reported by bindgen.
    pub c: String,
    /// Rust item name to generate.
    pub rust: String,
}

/// Regex-based C item rename.
#[derive(Debug)]
pub struct RenameManyConfig {
    /// Regex matching C item names. Must not contain `^` or `$`, matching the programmatic API.
    pub matcher: String,
    /// Identifier renaming rules for matching items.
    pub renamer: IdentRenamerConfig,
}

/// C enum and enum variant rename.
#[derive(Debug)]
pub struct RenameEnumConfig {
    /// C enum name to rename.
    pub c: String,
    /// Rust enum name to generate.
    pub rust: String,
    /// Identifier renaming rules for enum variants.
    pub renamer: IdentRenamerConfig,
}

/// Enum variant rename without an enum item rename.
#[derive(Debug)]
pub struct RenameEnumValueConfig {
    /// Regex matching the C enum name. `None` for unnamed enum callbacks.
    pub enum_match: Option<String>,
    /// Identifier renaming rules for enum variants.
    pub renamer: IdentRenamerConfig,
}

/// Define-backed enum generation.
#[derive(Debug)]
pub struct DefineEnumConfig {
    /// Rust enum name to generate.
    pub name: String,
    /// Regex matching integer macro names to collect.
    pub matcher: String,
    /// Optional explicit repr type.
    pub repr: Option<String>,
    /// Include only values greater than or equal to this value.
    pub min: Option<i64>,
    /// Include only values less than or equal to this value.
    pub max: Option<i64>,
    /// Regexes matching macro names to exclude.
    pub exclude: Vec<String>,
    /// Optional generated variant sort order.
    pub sort: Option<String>,
    /// Optional derives for the generated enum.
    pub derives: Option<Vec<String>>,
    /// Identifier renaming rules for generated variants.
    pub renamer: IdentRenamerConfig,
}

/// Identifier rename pipeline used by multiple helper rule types.
#[derive(Debug)]
pub struct IdentRenamerConfig {
    /// Regexes to remove before explicit renames and case conversion.
    pub remove: Vec<String>,
    /// Case conversion to apply after removals, unless an explicit rename matches.
    pub case: Option<String>,
    /// Explicit renames after removals, source name to target name.
    pub renames: Vec<(String, String)>,
}

/// Error returned when loading or applying helper config.
#[derive(Debug)]
#[non_exhaustive]
pub enum HelperConfigError {
    /// Reading the TOML file failed.
    Read {
        /// Path that failed to read.
        path: String,
        /// Source IO error.
        source: std::io::Error,
    },
    /// Parsing TOML failed.
    Parse {
        /// Path that failed to parse.
        path: String,
        /// Source TOML parse error.
        source: toml::de::Error,
    },
    /// A regex field could not be compiled.
    Regex {
        /// Config field name.
        field: &'static str,
        /// Invalid regex string.
        value: String,
        /// Source regex parse error.
        source: ::regex::Error,
    },
    /// `rename_many.match` violated the existing API invariant.
    AnchoredRenameMany(String),
    /// The config named an unsupported case.
    UnknownCase(String),
    /// The config named an unsupported define enum sort.
    UnknownSort(String),
}

/// What a [`HelperConfigError`] says, without the underlying source error.
pub enum ConfigErrorModel {
    Read(Seq<char>),
    Parse(Seq<char>),
    Regex { field: Seq<char>, value: Seq<char> },
    AnchoredRenameMany(Seq<char>),
    UnknownCase(Seq<char>),
    UnknownSort(Seq<char>),
}

/// What `e` says, without its source error.
pub open spec fn error_model(e: HelperConfigError) -> ConfigErrorModel {
    match e {
        HelperConfigError::Read { path, .. } => ConfigErrorModel::Read(path@),
        HelperConfigError::Parse { path, .. } => ConfigErrorModel::Parse(path@),
        HelperConfigError::Regex { field, value, .. } => ConfigErrorModel::Regex {
            field: field@,
            value: value@,
        },
        HelperConfigError::AnchoredRenameMany(m) => ConfigErrorModel::AnchoredRenameMany(m@),
        HelperConfigError::UnknownCase(c) => ConfigErrorModel::UnknownCase(c@),
        HelperConfigError::UnknownSort(s) => ConfigErrorModel::UnknownSort(s@),
    }
}

/// The message of an error, as the `bindgen-helper` program prints it.
pub open spec fn error_text(e: ConfigErrorModel) -> Seq<char> {
    match e {
        ConfigErrorModel::Read(path) => "failed to read helper config `"@ + path + "`"@,
        ConfigErrorModel::Parse(path) => "failed to parse helper config `"@ + path + "`"@,
        ConfigErrorModel::Regex { field, value } => "invalid regex in `"@ + field + "`: `"@
            + value + "`"@,
        ConfigErrorModel::AnchoredRenameMany(m) => "`rename_many.match` must not contain `^` or `$`: `"@
            + m + "`"@,
        ConfigErrorModel::UnknownCase(c) => "unknown case `"@ + c + "`"@,
        ConfigErrorModel::UnknownSort(s) => "unknown define enum sort `"@ + s + "`"@,
    }
}

impl HelperConfigError {
    /// The message of this error, e.g. ``unknown case `NotACase` ``.
    pub fn message(&self) -> (m: String)
        ensures
            m@ == error_text(error_model(*self)),
    {
        let (head, middle, tail): (&str, &str, &str) = match self {
            HelperConfigError::Read { path, .. } => (
                "failed to read helper config `",
                path.as_str(),
                "`",
            ),
            HelperConfigError::Parse { path, .. } => (
                "failed to parse helper config `",
                path.as_str(),
                "`",
            ),
            HelperConfigError::Regex { field, value, .. } => {
                let mut m = "invalid regex in `".to_owned();
                m.append(field);
                m.append("`: `");
                m.append(value.as_str());
                m.append("`");
                return m;
            },
            HelperConfigError::AnchoredRenameMany(matcher) => (
                "`rename_many.match` must not contain `^` or `$`: `",
                matcher.as_str(),
                "`",
            ),
            HelperConfigError::UnknownCase(case) => ("unknown case `", case.as_str(), "`"),
            HelperConfigError::UnknownSort(sort) => (
                "unknown define enum sort `",
                sort.as_str(),
                "`",
            ),
        };
        let mut m = head.to_owned();
        m.append(middle);
        m.append(tail);
        m
    }
}

/// `value` without `-` and `_`, each remaining character replaced by its lowercase mapping
/// (`char_lower`).
pub open spec fn normalized(value: Seq<char>) -> Seq<char>
    decreases value.len(),
{
    if value.len() == 0 {
        Seq::empty()
    } else {
        let c = value.last();
        normalized(value.drop_last()) + if c == '-' || c == '_' {
            Seq::empty()
        } else {
            char_lower(c)
        }
    }
}

/// The sort that a config value names, compared after normalization.
pub open spec fn sort_named(value: Seq<char>) -> Option<DefineEnumSort> {
    let n = normalized(value);
    if n == "name"@ {
        Some(DefineEnumSort::Name)
    } else if n == "value"@ {
        Some(DefineEnumSort::Value)
    } else if n == "valuedesc"@ {
        Some(DefineEnumSort::ValueDesc)
    } else {
        None
    }
}

/// The case that a config value names, compared after normalization.
pub open spec fn case_named(value: Seq<char>) -> Option<Case> {
    let n = normalized(value);
    if n == "snake"@ {
        Some(Case::Snake)
    } else if n == "constant"@ || n == "uppersnake"@ || n == "screamingsnake"@ {
        Some(Case::UpperSnake)
    } else if n == "ada"@ {
        Some(Case::Ada)
    } else if n == "kebab"@ {
        Some(Case::Kebab)
    } else if n == "cobol"@ || n == "upperkebab"@ {
        Some(Case::UpperKebab)
    } else if n == "train"@ {
        Some(Case::Train)
    } else if n == "flat"@ {
        Some(Case::Flat)
    } else if n == "upperflat"@ {
        Some(Case::UpperFlat)
    } else if n == "pascal"@ || n == "uppercamel"@ {
        Some(Case::Pascal)
    } else if n == "camel"@ {
        Some(Case::Camel)
    } else if n == "lower"@ {
        Some(Case::Lower)
    } else if n == "upper"@ {
        Some(Case::Upper)
    } else if n == "title"@ {
        Some(Case::Title)
    } else if n == "sentence"@ {
        Some(Case::Sentence)
    } else {
        None
    }
}

/// The case setting that a config value names: `Some(None)` for no conversion (`none`,
/// `preserve`, `raw`), `Some(Some(case))` for a case, `None` for an unknown name.
pub open spec fn case_setting_named(value: Seq<char>) -> Option<Option<Case>> {
    let n = normalized(value);
    if n == "none"@ || n == "preserve"@ || n == "raw"@ {
        Some(None)
    } else {
        match case_named(value) {
            Some(c) => Some(Some(c)),
            None => None,
        }
    }
}

/// `value` without `-` and `_`, lowercased.
pub fn normalize_name(value: &str) -> (out: String)
    ensures
        out@ == normalized(value@),
{
    let chars = chars_of(value);
    let mut out: Vec<char> = Vec::new();
    let mut i: usize = 0;
    while i < chars.len()
        invariant
            i <= chars.len(),
            chars@ == value@,
            out@ == normalized(value@.take(i as int)),
        decreases chars.len() - i,
    {
        assert(value@.take(i + 1).drop_last() =~= value@.take(i as int));
        let c = chars[i];
        if c != '-' && c != '_' {
            let lower = char_lowercase(c);
            let mut k: usize = 0;
            let ghost base = out@;
            while k < lower.len()
                invariant
                    k <= lower.len(),
                    out@ == base + lower@.take(k as int),
                decreases lower.len() - k,
            {
                out.push(lower[k]);
                assert(lower@.take(k + 1) =~= lower@.take(k as int).push(lower@[k as int]));
                assert(out@ =~= base + lower@.take(k + 1));
                k = k + 1;
            }
            assert(lower@.take(lower.len() as int) =~= lower@);
        } else {
            assert(out@ =~= out@ + Seq::<char>::empty());
        }
        i = i + 1;
    }
    assert(value@.take(chars.len() as int) =~= value@);
    string_of(&out)
}

/// Parses a define enum sort name, ignoring case, `-` and `_`.
pub fn parse_sort(value: &str) -> (r: Result<DefineEnumSort, HelperConfigError>)
    ensures
        match r {
            Ok(s) => sort_named(value@) == Some(s),
            Err(e) => sort_named(value@) is None && error_model(e) == ConfigErrorModel::UnknownSort(
                value@,
            ),
        },
{
    let n = normalize_name(value);
    if str_equal(n.as_str(), "name") {
        Ok(DefineEnumSort::Name)
    } else if str_equal(n.as_str(), "value") {
        Ok(DefineEnumSort::Value)
    } else if str_equal(n.as_str(), "valuedesc") {
        Ok(DefineEnumSort::ValueDesc)
    } else {
        Err(HelperConfigError::UnknownSort(value.to_owned()))
    }
}

/// Parses a case name, ignoring case, `-` and `_`.
pub fn parse_case(value: &str) -> (r: Result<Case, HelperConfigError>)
    ensures
        match r {
            Ok(c) => case_named(value@) == Some(c),
            Err(e) => case_named(value@) is None && error_model(e) == ConfigErrorModel::UnknownCase(
                value@,
            ),
        },
{
    let n = normalize_name(value);
    let n = n.as_str();
    if str_equal(n, "snake") {
        Ok(Case::Snake)
    } else if str_equal(n, "constant") || str_equal(n, "uppersnake") || str_equal(
        n,
        "screamingsnake",
    ) {
        Ok(Case::UpperSnake)
    } else if str_equal(n, "ada") {
        Ok(Case::Ada)
    } else if str_equal(n, "kebab") {
        Ok(Case::Kebab)
    } else if str_equal(n, "cobol") || str_equal(n, "upperkebab") {
        Ok(Case::UpperKebab)
    } else if str_equal(n, "train") {
        Ok(Case::Train)
    } else if str_equal(n, "flat") {
        Ok(Case::Flat)
    } else if str_equal(n, "upperflat") {
        Ok(Case::UpperFlat)
    } else if str_equal(n, "pascal") || str_equal(n, "uppercamel") {
        Ok(Case::Pascal)
    } else if str_equal(n, "camel") {
        Ok(Case::Camel)
    } else if str_equal(n, "lower") {
        Ok(Case::Lower)
    } else if str_equal(n, "upper") {
        Ok(Case::Upper)
    } else if str_equal(n, "title") {
        Ok(Case::Title)
    } else if str_equal(n, "sentence") {
        Ok(Case::Sentence)
    } else {
        Err(HelperConfigError::UnknownCase(value.to_owned()))
    }
}

/// Parses a case setting: `none`, `preserve` and `raw` disable case conversion; any other
/// value must name a case.
pub fn parse_case_setting(value: &str) -> (r: Result<Option<Case>, HelperConfigError>)
    ensures
        match r {
            Ok(c) => case_setting_named(value@) == Some(c),
            Err(e) => case_setting_named(value@) is None && error_model(e)
                == ConfigErrorModel::UnknownCase(value@),
        },
{
    let n = normalize_name(value);
    let n = n.as_str();
    if str_equal(n, "none") || str_equal(n, "preserve") || str_equal(n, "raw") {
        Ok(None)
    } else {
        match parse_case(value) {
            Ok(c) => Ok(Some(c)),
            Err(e) => Err(e),
        }
    }
}

/// The first of `patterns` that is not a valid regex, if any.
pub open spec fn first_invalid(patterns: Seq<Seq<char>>) -> Option<Seq<char>>
    decreases patterns.len(),
{
    if patterns.len() == 0 {
        None
    } else if !regex_valid(patterns[0]) {
        Some(patterns[0])
    } else {
        first_invalid(patterns.drop_first())
    }
}

/// What converting an identifier rename config gives: the first invalid removal regex is
/// an error, then an unknown case; otherwise the renamer, with `default_case` when the
/// config names no case.
pub open spec fn ident_outcome(c: IdentRenamerConfig, default_case: Option<Case>) -> Result<
    IdentRenamerModel,
    ConfigErrorModel,
> {
    let remove = strings_view(c.remove@);
    match first_invalid(remove) {
        Some(p) => Err(ConfigErrorModel::Regex { field: "remove"@, value: p }),
        None => {
            let case: Result<Option<Case>, ConfigErrorModel> = match c.case {
                Some(name) => match case_setting_named(name@) {
                    Some(setting) => Ok(setting),
                    None => Err(ConfigErrorModel::UnknownCase(name@)),
                },
                None => Ok(default_case),
            };
            match case {
                Err(e) => Err(e),
                Ok(setting) => Ok(
                    IdentRenamerModel {
                        remove: if remove.len() == 0 {
                            None
                        } else {
                            Some(remove)
                        },
                        renames: pairs_view(c.renames@),
                        case: setting,
                    },
                ),
            }
        },
    }
}

/// Compiles `value` as the regex of the config field `field`.
pub fn regex(field: &'static str, value: &str) -> (r: Result<Regex, HelperConfigError>)
    ensures
        match r {
            Ok(re) => regex_valid(value@) && re@ == value@,
            Err(e) => !regex_valid(value@) && error_model(e) == (ConfigErrorModel::Regex {
                field: field@,
                value: value@,
            }),
        },
{
    match Regex::new(value) {
        Ok(re) => Ok(re),
        Err(source) => Err(HelperConfigError::Regex { field, value: value.to_owned(), source }),
    }
}

/// A copy of a list of string pairs.
fn copy_pairs(pairs: &Vec<(String, String)>) -> (out: Vec<(String, String)>)
    ensures
        pairs_view(out@) == pairs_view(pairs@),
{
    let mut out: Vec<(String, String)> = Vec::new();
    let mut i: usize = 0;
    while i < pairs.len()
        invariant
            i <= pairs.len(),
            pairs_view(out@) == pairs_view(pairs@).take(i as int),
        decreases pairs.len() - i,
    {
        let ghost before = out@;
        let a = pairs[i].0.clone();
        let b = pairs[i].1.clone();
        out.push((a, b));
        assert(pairs_view(out@) =~= pairs_view(before).push((a@, b@)));
        assert(pairs_view(pairs@).take(i + 1) =~= pairs_view(pairs@).take(i as int).push(
            pairs_view(pairs@)[i as int],
        ));
        assert(pairs_view(out@) =~= pairs_view(pairs@).take(i + 1));
        i = i + 1;
    }
    assert(pairs_view(pairs@).take(pairs.len() as int) =~= pairs_view(pairs@));
    out
}

impl IdentRenamerConfig {
    /// Builds the identifier renamer that this config describes, with `default_case` when
    /// it names no case.
    pub fn to_ident_renamer(&self, default_case: Option<Case>) -> (r: Result<
        IdentRenamer,
        HelperConfigError,
    >)
        ensures
            match r {
                Ok(ir) => ident_outcome(*self, default_case) == Ok::<
                    IdentRenamerModel,
                    ConfigErrorModel,
                >(ir@),
                Err(e) => ident_outcome(*self, default_case) == Err::<
                    IdentRenamerModel,
                    ConfigErrorModel,
                >(error_model(e)),
            },
    {
        let ghost patterns = strings_view(self.remove@);
        let mut remove: Vec<Regex> = Vec::new();
        let mut i: usize = 0;
        assert(patterns.skip(0) =~= patterns);
        while i < self.remove.len()
            invariant
                i <= self.remove.len(),
                patterns == strings_view(self.remove@),
                first_invalid(patterns) == first_invalid(patterns.skip(i as int)),
                regexes_view(remove@) == patterns.take(i as int),
            decreases self.remove.len() - i,
        {
            assert(patterns.skip(i as int).drop_first() =~= patterns.skip(i + 1));
            assert(patterns.skip(i as int)[0] == self.remove@[i as int]@);
            let re = regex("remove", self.remove[i].as_str())?;
            let ghost before = remove@;
            let ghost rv = re@;
            remove.push(re);
            assert(regexes_view(remove@) =~= regexes_view(before).push(rv));
            assert(patterns.take(i + 1) =~= patterns.take(i as int).push(patterns[i as int]));
            assert(regexes_view(remove@) =~= patterns.take(i + 1));
            i = i + 1;
        }
        assert(patterns.take(self.remove.len() as int) =~= patterns);
        assert(first_invalid(patterns.skip(self.remove.len() as int)) is None);
        let case = match &self.case {
            Some(name) => parse_case_setting(name.as_str())?,
            None => default_case,
        };
        let renames = copy_pairs(&self.renames);
        Ok(
            IdentRenamer {
                remove: if remove.len() == 0 {
                    None
                } else {
                    Some(remove)
                },
                renames,
                case,
            },
        )
    }
}

impl Default for IdentRenamerConfig {
    fn default() -> (c: IdentRenamerConfig)
        ensures
            c.remove@.len() == 0,
            c.case is None,
            c.renames@.len() == 0,
    {
        IdentRenamerConfig { remove: Vec::new(), case: None, renames: Vec::new() }
    }
}

impl Default for HelperConfig {
    fn default() -> (c: HelperConfig)
        ensures
            !c.debug,
            c.rename_item@.len() == 0,
            c.rename_many@.len() == 0,
            c.rename_enum@.len() == 0,
            c.rename_enum_value@.len() == 0,
            c.define_enum@.len() == 0,
    {
        HelperConfig {
            debug: false,
            rename_item: Vec::new(),
            rename_many: Vec::new(),
            rename_enum: Vec::new(),
            rename_enum_value: Vec::new(),
            define_enum: Vec::new(),
        }
    }
}

/// How far applying a config got: still running with the rules so far, stopped on an
/// error with the rules added before it, or aborted on a rule that cannot be compiled.
pub enum ApplyState {
    Running(RenamerModel),
    Failed(ConfigErrorModel, RenamerModel),
    Aborted,
}

/// The regex that selects the enum `c` and its `enum c` spelling.
pub open spec fn enum_pattern(c: Seq<char>) -> Seq<char> {
    "^(enum )?"@ + c + "$"@
}

/// The collector that a define enum rule describes, with its variant renamer.
pub open spec fn define_model(e: DefineEnumConfig, renamer: IdentRenamerModel) -> DefineEnumModel {
    DefineEnumModel {
        enum_name: e.name@,
        repr: match e.repr {
            Some(r) => Some(r@),
            None => None,
        },
        matcher: e.matcher@,
        exclude: strings_view(e.exclude@),
        sort: match e.sort {
            Some(s) => sort_named(s@),
            None => None,
        },
        derives: match e.derives {
            Some(d) => Some(strings_view(d@)),
            None => None,
        },
        min: e.min,
        max: e.max,
        renamer,
        values: Seq::empty(),
    }
}

/// Whether a regex item rule fails: anchored, invalid, or with a failing renamer.
pub open spec fn many_fails(e: RenameManyConfig) -> bool {
    e.matcher@.contains('^') || e.matcher@.contains('$') || !regex_valid(e.matcher@)
        || ident_outcome(e.renamer, None) is Err
}

/// Applying an exact item rule.
pub open spec fn step_item(st: ApplyState, e: RenameItemConfig) -> ApplyState {
    match st {
        ApplyState::Running(r) => ApplyState::Running(
            RenamerModel { items: r.items.push((e.c@, e.rust@)), ..r },
        ),
        other => other,
    }
}

/// Applying a regex item rule.
pub open spec fn step_many(st: ApplyState, e: RenameManyConfig) -> ApplyState {
    match st {
        ApplyState::Running(r) => if e.matcher@.contains('^') || e.matcher@.contains('$') {
            ApplyState::Failed(ConfigErrorModel::AnchoredRenameMany(e.matcher@), r)
        } else if !regex_valid(e.matcher@) {
            ApplyState::Failed(
                ConfigErrorModel::Regex { field: "rename_many.match"@, value: e.matcher@ },
                r,
            )
        } else {
            match ident_outcome(e.renamer, None) {
                Err(x) => ApplyState::Failed(x, r),
                Ok(ir) => ApplyState::Running(
                    RenamerModel { many: r.many.push((e.matcher@, ir)), ..r },
                ),
            }
        },
        other => other,
    }
}

/// Applying an enum rule: the item rename first, then the variant rule, which aborts when
/// its regex does not compile.
pub open spec fn step_enum(st: ApplyState, e: RenameEnumConfig) -> ApplyState {
    match st {
        ApplyState::Running(r) => {
            let r1 = RenamerModel { items: r.items.push((e.c@, e.rust@)), ..r };
            match ident_outcome(e.renamer, Some(Case::Pascal)) {
                Err(x) => ApplyState::Failed(x, r1),
                Ok(ir) => if regex_valid(enum_pattern(e.c@)) {
                    ApplyState::Running(
                        RenamerModel { enums: r1.enums.push((Some(enum_pattern(e.c@)), ir)), ..r1 },
                    )
                } else {
                    ApplyState::Aborted
                },
            }
        },
        other => other,
    }
}

/// Applying an enum variant rule.
pub open spec fn step_enum_value(st: ApplyState, e: RenameEnumValueConfig) -> ApplyState {
    match st {
        ApplyState::Running(r) => {
            let pattern = match e.enum_match {
                Some(p) => Some(p@),
                None => None,
            };
            if pattern matches Some(p) && !regex_valid(p) {
                ApplyState::Failed(
                    ConfigErrorModel::Regex {
                        field: "rename_enum_value.enum_match"@,
                        value: pattern->0,
                    },
                    r,
                )
            } else {
                match ident_outcome(e.renamer, Some(Case::Pascal)) {
                    Err(x) => ApplyState::Failed(x, r),
                    Ok(ir) => ApplyState::Running(
                        RenamerModel { enums: r.enums.push((pattern, ir)), ..r },
                    ),
                }
            }
        },
        other => other,
    }
}

/// Applying a define enum rule: the matcher, the renamer, the exclusions in order, then the
/// sort name are checked; the collector is added when all hold.
pub open spec fn step_define(st: ApplyState, e: DefineEnumConfig) -> ApplyState {
    match st {
        ApplyState::Running(r) => if !regex_valid(e.matcher@) {
            ApplyState::Failed(
                ConfigErrorModel::Regex { field: "define_enum.match"@, value: e.matcher@ },
                r,
            )
        } else {
            match ident_outcome(e.renamer, Some(Case::Pascal)) {
                Err(x) => ApplyState::Failed(x, r),
                Ok(ir) => match first_invalid(strings_view(e.exclude@)) {
                    Some(p) => ApplyState::Failed(
                        ConfigErrorModel::Regex { field: "define_enum.exclude"@, value: p },
                        r,
                    ),
                    None => if e.sort matches Some(s) && sort_named(s@) is None {
                        ApplyState::Failed(ConfigErrorModel::UnknownSort(e.sort->0@), r)
                    } else {
                        ApplyState::Running(
                            RenamerModel { defines: r.defines.push(define_model(e, ir)), ..r },
                        )
                    },
                },
            }
        },
        other => other,
    }
}

/// Applies `step` to each of `es` in turn.
pub open spec fn fold_steps<T>(
    st: ApplyState,
    es: Seq<T>,
    step: spec_fn(ApplyState, T) -> ApplyState,
) -> ApplyState
    decreases es.len(),
{
    if es.len() == 0 {
        st
    } else {
        step(fold_steps(st, es.drop_last(), step), es.last())
    }
}

pub open spec fn item_steps() -> spec_fn(ApplyState, RenameItemConfig) -> ApplyState {
    |st: ApplyState, e: RenameItemConfig| step_item(st, e)
}

pub open spec fn many_steps() -> spec_fn(ApplyState, RenameManyConfig) -> ApplyState {
    |st: ApplyState, e: RenameManyConfig| step_many(st, e)
}

pub open spec fn enum_steps() -> spec_fn(ApplyState, RenameEnumConfig) -> ApplyState {
    |st: ApplyState, e: RenameEnumConfig| step_enum(st, e)
}

pub open spec fn enum_value_steps() -> spec_fn(ApplyState, RenameEnumValueConfig) -> ApplyState {
    |st: ApplyState, e: RenameEnumValueConfig| step_enum_value(st, e)
}

pub open spec fn define_steps() -> spec_fn(ApplyState, DefineEnumConfig) -> ApplyState {
    |st: ApplyState, e: DefineEnumConfig| step_define(st, e)
}

/// The outcome of applying `cfg` to rules `r`: exact item renames, regex item renames, enum
/// renames, enum variant renames, then define enums, each list in order, stopping at the
/// first error.
pub open spec fn apply_outcome(cfg: HelperConfig, r: RenamerModel) -> ApplyState {
    let s1 = fold_steps(ApplyState::Running(r), cfg.rename_item@, item_steps());
    let s2 = fold_steps(s1, cfg.rename_many@, many_steps());
    let s3 = fold_steps(s2, cfg.rename_enum@, enum_steps());
    let s4 = fold_steps(s3, cfg.rename_enum_value@, enum_value_steps());
    fold_steps(s4, cfg.define_enum@, define_steps())
}

/// A step leaves a stopped state as it is.
pub open spec fn sticks<T>(step: spec_fn(ApplyState, T) -> ApplyState) -> bool {
    forall|s: ApplyState, e: T| !(s is Running) ==> #[trigger] step(s, e) == s
}

/// Once a fold has stopped on a prefix, the rest of the list leaves it as it is.
proof fn lemma_fold_sticks<T>(
    st: ApplyState,
    es: Seq<T>,
    step: spec_fn(ApplyState, T) -> ApplyState,
    k: int,
)
    requires
        0 <= k <= es.len(),
        sticks(step),
        !(fold_steps(st, es.take(k), step) is Running),
    ensures
        fold_steps(st, es, step) == fold_steps(st, es.take(k), step),
    decreases es.len(),
{
    if es.len() == k {
        assert(es.take(k) =~= es);
    } else {
        assert(es.drop_last().take(k) =~= es.take(k));
        lemma_fold_sticks(st, es.drop_last(), step, k);
    }
}

/// A fold over the first `i + 1` elements is one more step.
proof fn lemma_fold_take<T>(
    st: ApplyState,
    es: Seq<T>,
    step: spec_fn(ApplyState, T) -> ApplyState,
    i: int,
)
    requires
        0 <= i < es.len(),
    ensures
        fold_steps(st, es.take(i + 1), step) == step(fold_steps(st, es.take(i), step), es[i]),
{
    assert(es.take(i + 1).drop_last() =~= es.take(i));
}

proof fn lemma_steps_stick()
    ensures
        sticks(item_steps()),
        sticks(many_steps()),
        sticks(enum_steps()),
        sticks(enum_value_steps()),
        sticks(define_steps()),
{
}

/// A stopped state stays as it is through any fold.
proof fn lemma_fold_stopped<T>(st: ApplyState, es: Seq<T>, step: spec_fn(ApplyState, T) -> ApplyState)
    requires
        sticks(step),
        !(st is Running),
    ensures
        fold_steps(st, es, step) == st,
{
    assert(es.take(0) =~= Seq::<T>::empty());
    lemma_fold_sticks(st, es, step, 0);
}

/// Applies an exact item rule.
fn apply_item(e: &RenameItemConfig, helpers: &mut BindingsBuilder)
    ensures
        final(helpers).bindgen() == old(helpers).bindgen(),
        step_item(ApplyState::Running(old(helpers)@), *e) == ApplyState::Running(final(helpers)@),
{
    helpers.rename_item(e.c.as_str(), e.rust.as_str());
}

/// Applies a regex item rule.
fn apply_many(e: &RenameManyConfig, helpers: &mut BindingsBuilder) -> (r: Result<(), HelperConfigError>)
    ensures
        final(helpers).bindgen() == old(helpers).bindgen(),
        match r {
            Ok(()) => step_many(ApplyState::Running(old(helpers)@), *e) == ApplyState::Running(
                final(helpers)@,
            ),
            Err(x) => step_many(ApplyState::Running(old(helpers)@), *e) == ApplyState::Failed(
                error_model(x),
                final(helpers)@,
            ),
        },
{
    if contains_char(e.matcher.as_str(), '^') || contains_char(e.matcher.as_str(), '$') {
        return Err(HelperConfigError::AnchoredRenameMany(e.matcher.clone()));
    }
    let re = match regex("rename_many.match", e.matcher.as_str()) {
        Ok(re) => re,
        Err(x) => return Err(x),
    };
    let ir = match e.renamer.to_ident_renamer(None) {
        Ok(ir) => ir,
        Err(x) => return Err(x),
    };
    helpers.rename_many(re, ir);
    Ok(())
}

/// Applies an enum rule; `None` when its variant regex does not compile.
fn apply_enum(e: &RenameEnumConfig, helpers: &mut BindingsBuilder) -> (r: Option<
    Result<(), HelperConfigError>,
>)
    ensures
        final(helpers).bindgen() == old(helpers).bindgen(),
        match r {
            None => step_enum(ApplyState::Running(old(helpers)@), *e) is Aborted,
            Some(Ok(())) => step_enum(ApplyState::Running(old(helpers)@), *e)
                == ApplyState::Running(final(helpers)@),
            Some(Err(x)) => step_enum(ApplyState::Running(old(helpers)@), *e)
                == ApplyState::Failed(error_model(x), final(helpers)@),
        },
{
    helpers.rename_item(e.c.as_str(), e.rust.as_str());
    let ir = match e.renamer.to_ident_renamer(Some(Case::Pascal)) {
        Ok(ir) => ir,
        Err(x) => return Some(Err(x)),
    };
    let mut pattern = "^(enum )?".to_owned();
    pattern.append(e.c.as_str());
    pattern.append("$");
    assert(pattern@ == enum_pattern(e.c@));
    match Regex::new(pattern.as_str()) {
        Ok(_) => {},
        Err(_) => return None,
    }
    helpers.rename_enum_val(Some(pattern.as_str()), ir);
    Some(Ok(()))
}

/// Applies an enum variant rule.
fn apply_enum_value(e: &RenameEnumValueConfig, helpers: &mut BindingsBuilder) -> (r: Result<
    (),
    HelperConfigError,
>)
    ensures
        final(helpers).bindgen() == old(helpers).bindgen(),
        match r {
            Ok(()) => step_enum_value(ApplyState::Running(old(helpers)@), *e)
                == ApplyState::Running(final(helpers)@),
            Err(x) => step_enum_value(ApplyState::Running(old(helpers)@), *e)
                == ApplyState::Failed(error_model(x), final(helpers)@),
        },
{
    match &e.enum_match {
        Some(m) => match regex("rename_enum_value.enum_match", m.as_str()) {
            Ok(_) => {},
            Err(x) => return Err(x),
        },
        None => {},
    }
    let ir = match e.renamer.to_ident_renamer(Some(Case::Pascal)) {
        Ok(ir) => ir,
        Err(x) => return Err(x),
    };
    match &e.enum_match {
        Some(m) => helpers.rename_enum_val(Some(m.as_str()), ir),
        None => helpers.rename_enum_val(None, ir),
    }
    Ok(())
}

/// Applies a define enum rule.
fn apply_define(e: &DefineEnumConfig, helpers: &mut BindingsBuilder) -> (r: Result<
    (),
    HelperConfigError,
>)
    ensures
        final(helpers).bindgen() == old(helpers).bindgen(),
        match r {
            Ok(()) => step_define(ApplyState::Running(old(helpers)@), *e) == ApplyState::Running(
                final(helpers)@,
            ),
            Err(x) => step_define(ApplyState::Running(old(helpers)@), *e) == ApplyState::Failed(
                error_model(x),
                final(helpers)@,
            ),
        },
{
    let matcher = match regex("define_enum.match", e.matcher.as_str()) {
        Ok(re) => re,
        Err(x) => return Err(x),
    };
    let ir = match e.renamer.to_ident_renamer(Some(Case::Pascal)) {
        Ok(ir) => ir,
        Err(x) => return Err(x),
    };
    let ghost irv = ir@;
    let mut define_enum = DefineEnum::new(e.name.as_str(), matcher, ir);
    match &e.repr {
        Some(repr) => {
            define_enum = define_enum.with_repr(repr.as_str());
        },
        None => {},
    }
    match e.min {
        Some(min) => {
            define_enum = define_enum.min(min);
        },
        None => {},
    }
    match e.max {
        Some(max) => {
            define_enum = define_enum.max(max);
        },
        None => {},
    }
    let ghost patterns = strings_view(e.exclude@);
    let mut i: usize = 0;
    assert(patterns.skip(0) =~= patterns);
    assert(patterns.take(0) =~= Seq::<Seq<char>>::empty());
    while i < e.exclude.len()
        invariant
            i <= e.exclude.len(),
            patterns == strings_view(e.exclude@),
            helpers@ == old(helpers)@,
            helpers.bindgen() == old(helpers).bindgen(),
            regex_valid(e.matcher@),
            ident_outcome(e.renamer, Some(Case::Pascal)) == Ok::<IdentRenamerModel, ConfigErrorModel>(irv),
            first_invalid(patterns) == first_invalid(patterns.skip(i as int)),
            define_enum@ == (DefineEnumModel {
                exclude: patterns.take(i as int),
                sort: None,
                derives: None,
                ..define_model(*e, irv)
            }),
        decreases e.exclude.len() - i,
    {
        assert(patterns.skip(i as int).drop_first() =~= patterns.skip(i + 1));
        assert(patterns.skip(i as int)[0] == e.exclude@[i as int]@);
        let re = match regex("define_enum.exclude", e.exclude[i].as_str()) {
            Ok(re) => re,
            Err(x) => return Err(x),
        };
        define_enum = define_enum.exclude(re);
        assert(patterns.take(i + 1) =~= patterns.take(i as int).push(patterns[i as int]));
        i = i + 1;
    }
    assert(patterns.take(e.exclude.len() as int) =~= patterns);
    assert(first_invalid(patterns.skip(e.exclude.len() as int)) is None);
    match &e.sort {
        Some(sort) => {
            let parsed = match parse_sort(sort.as_str()) {
                Ok(s) => s,
                Err(x) => return Err(x),
            };
            define_enum = define_enum.sort(parsed);
        },
        None => {},
    }
    match &e.derives {
        Some(derives) => {
            let mut copy: Vec<String> = Vec::new();
            let mut k: usize = 0;
            while k < derives.len()
                invariant
                    k <= derives.len(),
                    strings_view(copy@) == strings_view(derives@).take(k as int),
                decreases derives.len() - k,
            {
                let ghost before = copy@;
                let d = derives[k].clone();
                copy.push(d);
                assert(strings_view(copy@) =~= strings_view(before).push(d@));
                assert(strings_view(derives@).take(k + 1) =~= strings_view(derives@).take(
                    k as int,
                ).push(strings_view(derives@)[k as int]));
                k = k + 1;
            }
            assert(strings_view(derives@).take(derives.len() as int) =~= strings_view(derives@));
            define_enum = define_enum.derives(copy);
        },
        None => {},
    }
    assert(define_enum@ == define_model(*e, irv));
    helpers.define_enum(define_enum);
    Ok(())
}

/// How the enum rules end when applied from a running state: 0 when all apply, 1 when one
/// fails first, 2 when one aborts first.
pub open spec fn enum_rules_end(es: Seq<RenameEnumConfig>) -> int
    decreases es.len(),
{
    if es.len() == 0 {
        0
    } else {
        let k = enum_rules_end(es.drop_last());
        if k != 0 {
            k
        } else if ident_outcome(es.last().renamer, Some(Case::Pascal)) is Err {
            1
        } else if !regex_valid(enum_pattern(es.last().c@)) {
            2
        } else {
            0
        }
    }
}

/// Whether applying `cfg` aborts: every regex item rule applies, and an enum rule whose
/// variant regex does not compile is reached before any enum rule fails.
pub open spec fn config_aborts(cfg: HelperConfig) -> bool {
    &&& forall|i: int| 0 <= i < cfg.rename_many@.len() ==> !many_fails(#[trigger] cfg.rename_many@[i])
    &&& enum_rules_end(cfg.rename_enum@) == 2
}

proof fn lemma_items_run(r: RenamerModel, es: Seq<RenameItemConfig>)
    ensures
        fold_steps(ApplyState::Running(r), es, item_steps()) is Running,
    decreases es.len(),
{
    if es.len() > 0 {
        lemma_items_run(r, es.drop_last());
    }
}

proof fn lemma_many_run(r: RenamerModel, es: Seq<RenameManyConfig>)
    ensures
        (fold_steps(ApplyState::Running(r), es, many_steps()) is Running) <==> (forall|i: int|
            0 <= i < es.len() ==> !many_fails(#[trigger] es[i])),
        !(fold_steps(ApplyState::Running(r), es, many_steps()) is Aborted),
    decreases es.len(),
{
    if es.len() > 0 {
        let prev = es.drop_last();
        lemma_many_run(r, prev);
        if forall|i: int| 0 <= i < es.len() ==> !many_fails(#[trigger] es[i]) {
            assert forall|i: int| 0 <= i < prev.len() implies !many_fails(#[trigger] prev[i]) by {
                assert(prev[i] == es[i]);
            }
        }
        if fold_steps(ApplyState::Running(r), prev, many_steps()) is Running {
            assert forall|i: int| 0 <= i < es.len() - 1 implies !many_fails(#[trigger] es[i]) by {
                assert(prev[i] == es[i]);
            }
        } else {
            let i = choose|i: int| 0 <= i < prev.len() && many_fails(#[trigger] prev[i]);
            assert(es[i] == prev[i]);
        }
    }
}

proof fn lemma_enums_run(r: RenamerModel, es: Seq<RenameEnumConfig>)
    ensures
        (fold_steps(ApplyState::Running(r), es, enum_steps()) is Aborted) <==> enum_rules_end(es)
            == 2,
        (fold_steps(ApplyState::Running(r), es, enum_steps()) is Running) <==> enum_rules_end(es)
            == 0,
    decreases es.len(),
{
    if es.len() > 0 {
        lemma_enums_run(r, es.drop_last());
    }
}

/// A fold whose step neither starts nor ends an abort keeps whether it aborted.
proof fn lemma_fold_keeps_abort<T>(
    st: ApplyState,
    es: Seq<T>,
    step: spec_fn(ApplyState, T) -> ApplyState,
)
    requires
        forall|s: ApplyState, e: T| (#[trigger] step(s, e) is Aborted) <==> (s is Aborted),
    ensures
        (fold_steps(st, es, step) is Aborted) <==> (st is Aborted),
    decreases es.len(),
{
    if es.len() > 0 {
        lemma_fold_keeps_abort(st, es.drop_last(), step);
    }
}

/// Applying a config aborts exactly when `config_aborts` says so, whatever rules it starts
/// from.
proof fn lemma_outcome_aborts(cfg: HelperConfig, r: RenamerModel)
    ensures
        (apply_outcome(cfg, r) is Aborted) <==> config_aborts(cfg),
{
    lemma_steps_stick();
    let s1 = fold_steps(ApplyState::Running(r), cfg.rename_item@, item_steps());
    lemma_items_run(r, cfg.rename_item@);
    let r1 = s1->Running_0;
    lemma_many_run(r1, cfg.rename_many@);
    let s2 = fold_steps(s1, cfg.rename_many@, many_steps());
    let s3 = fold_steps(s2, cfg.rename_enum@, enum_steps());
    if s2 is Running {
        lemma_enums_run(s2->Running_0, cfg.rename_enum@);
    } else {
        lemma_fold_stopped(s2, cfg.rename_enum@, enum_steps());
    }
    assert forall|s: ApplyState, e: RenameEnumValueConfig| (#[trigger] enum_value_steps()(s, e)
        is Aborted) <==> (s is Aborted) by {}
    assert forall|s: ApplyState, e: DefineEnumConfig| (#[trigger] define_steps()(s, e)
        is Aborted) <==> (s is Aborted) by {}
    lemma_fold_keeps_abort(s3, cfg.rename_enum_value@, enum_value_steps());
    let s4 = fold_steps(s3, cfg.rename_enum_value@, enum_value_steps());
    lemma_fold_keeps_abort(s4, cfg.define_enum@, define_steps());
}

impl HelperConfig {
    /// Whether applying this config aborts: an enum rule's variant regex, built from its C
    /// name, does not compile, and no earlier rule stops the application first.
    pub fn aborts(&self) -> (r: bool)
        ensures
            r == config_aborts(*self),
    {
        let mut i: usize = 0;
        while i < self.rename_many.len()
            invariant
                i <= self.rename_many.len(),
                forall|k: int| 0 <= k < i ==> !many_fails(#[trigger] self.rename_many@[k]),
            decreases self.rename_many.len() - i,
        {
            let e = &self.rename_many[i];
            if contains_char(e.matcher.as_str(), '^') || contains_char(e.matcher.as_str(), '$') {
                return false;
            }
            if regex("rename_many.match", e.matcher.as_str()).is_err() {
                return false;
            }
            if e.renamer.to_ident_renamer(None).is_err() {
                return false;
            }
            i = i + 1;
        }
        let mut j: usize = 0;
        while j < self.rename_enum.len()
            invariant
                j <= self.rename_enum.len(),
                enum_rules_end(self.rename_enum@.take(j as int)) == 0,
                forall|k: int| 0 <= k < self.rename_many@.len() ==> !many_fails(#[trigger] self.rename_many@[k]),
            decreases self.rename_enum.len() - j,
        {
            assert(self.rename_enum@.take(j + 1).drop_last() =~= self.rename_enum@.take(j as int));
            let e = &self.rename_enum[j];
            if e.renamer.to_ident_renamer(Some(Case::Pascal)).is_err() {
                proof {
                    lemma_rules_end_prefix(self.rename_enum@, j + 1);
                }
                return false;
            }
            let mut pattern = "^(enum )?".to_owned();
            pattern.append(e.c.as_str());
            pattern.append("$");
            assert(pattern@ == enum_pattern(e.c@));
            if Regex::new(pattern.as_str()).is_err() {
                proof {
                    lemma_rules_end_prefix(self.rename_enum@, j + 1);
                }
                return true;
            }
            j = j + 1;
        }
        assert(self.rename_enum@.take(self.rename_enum.len() as int) =~= self.rename_enum@);
        false
    }

    /// Applies this config to an existing helper builder: exact item renames, regex item
    /// renames, enum renames, enum variant renames, then define enums, each list in order.
    ///
    /// # Errors
    /// Returns the first invalid regex, anchored `rename_many.match`, unknown case or unknown
    /// sort; the rules before it stay applied.
    pub fn apply_to(&self, helpers: &mut BindingsBuilder) -> (r: Result<(), HelperConfigError>)
        requires
            !config_aborts(*self),
        ensures
            final(helpers).bindgen() == old(helpers).bindgen(),
            match r {
                Ok(()) => apply_outcome(*self, old(helpers)@) == ApplyState::Running(
                    final(helpers)@,
                ),
                Err(x) => apply_outcome(*self, old(helpers)@) == ApplyState::Failed(
                    error_model(x),
                    final(helpers)@,
                ),
            },
    {
        let ghost r0 = helpers@;
        proof {
            lemma_steps_stick();
            lemma_outcome_aborts(*self, r0);
        }
        let ghost s0 = ApplyState::Running(r0);
        let mut i: usize = 0;
        while i < self.rename_item.len()
            invariant
                i <= self.rename_item.len(),
                helpers.bindgen() == old(helpers).bindgen(),
                s0 == ApplyState::Running(r0),
                ApplyState::Running(helpers@) == fold_steps(s0, self.rename_item@.take(i as int), item_steps()),
            decreases self.rename_item.len() - i,
        {
            proof {
                lemma_fold_take(s0, self.rename_item@, item_steps(), i as int);
            }
            apply_item(&self.rename_item[i], helpers);
            i = i + 1;
        }
        assert(self.rename_item@.take(self.rename_item.len() as int) =~= self.rename_item@);
        let ghost s1 = ApplyState::Running(helpers@);
        let mut i: usize = 0;
        while i < self.rename_many.len()
            invariant
                i <= self.rename_many.len(),
                helpers.bindgen() == old(helpers).bindgen(),
                s0 == ApplyState::Running(r0),
                r0 == old(helpers)@,
                s1 == fold_steps(s0, self.rename_item@, item_steps()),
                ApplyState::Running(helpers@) == fold_steps(s1, self.rename_many@.take(i as int), many_steps()),
                sticks(many_steps()) && sticks(enum_steps()) && sticks(enum_value_steps()) && sticks(define_steps()),
            decreases self.rename_many.len() - i,
        {
            proof {
                lemma_fold_take(s1, self.rename_many@, many_steps(), i as int);
            }
            match apply_many(&self.rename_many[i], helpers) {
                Ok(()) => {},
                Err(x) => {
                    proof {
                        let stop = ApplyState::Failed(error_model(x), helpers@);
                        lemma_fold_sticks(s1, self.rename_many@, many_steps(), i + 1);
                        lemma_fold_stopped(stop, self.rename_enum@, enum_steps());
                        lemma_fold_stopped(stop, self.rename_enum_value@, enum_value_steps());
                        lemma_fold_stopped(stop, self.define_enum@, define_steps());
                    }
                    return Err(x);
                },
            }
            i = i + 1;
        }
        assert(self.rename_many@.take(self.rename_many.len() as int) =~= self.rename_many@);
        let ghost s2 = ApplyState::Running(helpers@);
        let mut i: usize = 0;
        while i < self.rename_enum.len()
            invariant
                i <= self.rename_enum.len(),
                helpers.bindgen() == old(helpers).bindgen(),
                s0 == ApplyState::Running(r0),
                r0 == old(helpers)@,
                s2 == fold_steps(fold_steps(s0, self.rename_item@, item_steps()), self.rename_many@, many_steps()),
                ApplyState::Running(helpers@) == fold_steps(s2, self.rename_enum@.take(i as int), enum_steps()),
                !(apply_outcome(*self, r0) is Aborted),
                sticks(enum_steps()) && sticks(enum_value_steps()) && sticks(define_steps()),
            decreases self.rename_enum.len() - i,
        {
            proof {
                lemma_fold_take(s2, self.rename_enum@, enum_steps(), i as int);
            }
            match apply_enum(&self.rename_enum[i], helpers) {
                None => {
                    proof {
                        lemma_fold_sticks(s2, self.rename_enum@, enum_steps(), i + 1);
                        lemma_fold_stopped(ApplyState::Aborted, self.rename_enum_value@, enum_value_steps());
                        lemma_fold_stopped(ApplyState::Aborted, self.define_enum@, define_steps());
                        assert(false);
                    }
                    return Ok(());
                },
                Some(Ok(())) => {},
                Some(Err(x)) => {
                    proof {
                        let stop = ApplyState::Failed(error_model(x), helpers@);
                        lemma_fold_sticks(s2, self.rename_enum@, enum_steps(), i + 1);
                        lemma_fold_stopped(stop, self.rename_enum_value@, enum_value_steps());
                        lemma_fold_stopped(stop, self.define_enum@, define_steps());
                    }
                    return Err(x);
                },
            }
            i = i + 1;
        }
        assert(self.rename_enum@.take(self.rename_enum.len() as int) =~= self.rename_enum@);
        let ghost s3 = ApplyState::Running(helpers@);
        let mut i: usize = 0;
        while i < self.rename_enum_value.len()
            invariant
                i <= self.rename_enum_value.len(),
                helpers.bindgen() == old(helpers).bindgen(),
                s0 == ApplyState::Running(r0),
                r0 == old(helpers)@,
                s3 == fold_steps(fold_steps(fold_steps(s0, self.rename_item@, item_steps()), self.rename_many@, many_steps()), self.rename_enum@, enum_steps()),
                ApplyState::Running(helpers@) == fold_steps(s3, self.rename_enum_value@.take(i as int), enum_value_steps()),
                sticks(enum_value_steps()) && sticks(define_steps()),
            decreases self.rename_enum_value.len() - i,
        {
            proof {
                lemma_fold_take(s3, self.rename_enum_value@, enum_value_steps(), i as int);
            }
            match apply_enum_value(&self.rename_enum_value[i], helpers) {
                Ok(()) => {},
                Err(x) => {
                    proof {
                        let stop = ApplyState::Failed(error_model(x), helpers@);
                        lemma_fold_sticks(s3, self.rename_enum_value@, enum_value_steps(), i + 1);
                        lemma_fold_stopped(stop, self.define_enum@, define_steps());
                    }
                    return Err(x);
                },
            }
            i = i + 1;
        }
        assert(self.rename_enum_value@.take(self.rename_enum_value.len() as int) =~= self.rename_enum_value@);
        let ghost s4 = ApplyState::Running(helpers@);
        let mut i: usize = 0;
        while i < self.define_enum.len()
            invariant
                i <= self.define_enum.len(),
                helpers.bindgen() == old(helpers).bindgen(),
                s0 == ApplyState::Running(r0),
                r0 == old(helpers)@,
                s4 == fold_steps(fold_steps(fold_steps(fold_steps(s0, self.rename_item@, item_steps()), self.rename_many@, many_steps()), self.rename_enum@, enum_steps()), self.rename_enum_value@, enum_value_steps()),
                ApplyState::Running(helpers@) == fold_steps(s4, self.define_enum@.take(i as int), define_steps()),
                sticks(define_steps()),
            decreases self.define_enum.len() - i,
        {
            proof {
                lemma_fold_take(s4, self.define_enum@, define_steps(), i as int);
            }
            match apply_define(&self.define_enum[i], helpers) {
                Ok(()) => {},
                Err(x) => {
                    proof {
                        lemma_fold_sticks(s4, self.define_enum@, define_steps(), i + 1);
                    }
                    return Err(x);
                },
            }
            i = i + 1;
        }
        assert(self.define_enum@.take(self.define_enum.len() as int) =~= self.define_enum@);
        Ok(())
    }

    /// Applies this config unless it aborts (see [`HelperConfig::aborts`]); `None`, with
    /// the helpers left as they were, when it does.
    pub fn try_apply_to(&self, helpers: &mut BindingsBuilder) -> (r: Option<
        Result<(), HelperConfigError>,
    >)
        ensures
            final(helpers).bindgen() == old(helpers).bindgen(),
            r is None <==> config_aborts(*self),
            r is None <==> apply_outcome(*self, old(helpers)@) is Aborted,
            r is None ==> final(helpers)@ == old(helpers)@,
            r matches Some(Ok(())) ==> apply_outcome(*self, old(helpers)@) == ApplyState::Running(
                final(helpers)@,
            ),
            r matches Some(Err(x)) ==> apply_outcome(*self, old(helpers)@) == ApplyState::Failed(
                error_model(x),
                final(helpers)@,
            ),
    {
        proof {
            lemma_outcome_aborts(*self, helpers@);
        }
        if self.aborts() {
            None
        } else {
            Some(self.apply_to(helpers))
        }
    }
}

/// The end of a prefix of enum rules that stops at its last rule.
proof fn lemma_rules_end_prefix(es: Seq<RenameEnumConfig>, k: int)
    requires
        0 < k <= es.len(),
        enum_rules_end(es.take(k)) != 0,
    ensures
        enum_rules_end(es) == enum_rules_end(es.take(k)),
    decreases es.len(),
{
    if es.len() == k {
        assert(es.take(k) =~= es);
    } else {
        assert(es.drop_last().take(k) =~= es.take(k));
        lemma_rules_end_prefix(es.drop_last(), k);
    }
}

/// Names that normalize alike name the same case, case setting and sort.
pub proof fn lemma_names_compare_normalized(a: Seq<char>, b: Seq<char>)
    requires
        normalized(a) == normalized(b),
    ensures
        case_named(a) == case_named(b),
        case_setting_named(a) == case_setting_named(b),
        sort_named(a) == sort_named(b),
{
}

/// Normalization drops `-` and `_` wherever they stand.
pub proof fn lemma_normalize_drops_separators(a: Seq<char>, c: char, b: Seq<char>)
    requires
        c == '-' || c == '_',
    ensures
        normalized(a + seq![c] + b) == normalized(a + b),
    decreases b.len(),
{
    if b.len() == 0 {
        assert((a + seq![c] + b).drop_last() =~= a);
        assert(a + b =~= a);
    } else {
        lemma_normalize_drops_separators(a, c, b.drop_last());
        assert((a + seq![c] + b).drop_last() =~= a + seq![c] + b.drop_last());
        assert((a + b).drop_last() =~= a + b.drop_last());
    }
}

/// Normalization ignores ASCII letter case: an uppercase ASCII letter normalizes as its
/// lowercase letter does, wherever it stands.
pub proof fn lemma_normalize_ignores_ascii_case(a: Seq<char>, c: char, b: Seq<char>)
    requires
        is_ascii_upper(c),
    ensures
        normalized(a + seq![c] + b) == normalized(a + seq![ascii_lower(c)] + b),
    decreases b.len(),
{
    let l = ascii_lower(c);
    assert(!is_ascii_upper(l) && (l as u32) < 128 && l != '-' && l != '_');
    if b.len() == 0 {
        assert((a + seq![c] + b).drop_last() =~= a);
        assert((a + seq![l] + b).drop_last() =~= a);
    } else {
        lemma_normalize_ignores_ascii_case(a, c, b.drop_last());
        assert((a + seq![c] + b).drop_last() =~= a + seq![c] + b.drop_last());
        assert((a + seq![l] + b).drop_last() =~= a + seq![l] + b.drop_last());
    }
}

/// The sort names mean what they say: a name that normalizes to `name` sorts by variant name,
/// to `value` by value with the smallest first, to `valuedesc` by value with the largest
/// first; any other name is unknown.
pub proof fn lemma_sort_names_order(v: Seq<char>, values: Seq<ValueModel>)
    ensures
        normalized(v) == "name"@ ==> sort_named(v) == Some(DefineEnumSort::Name) && forall|
            i: int,
            j: int,
        | 0 <= i < j < values.len() ==> !chars_less(
            #[trigger] sort_values(values, sort_named(v)->0)[j].variant_name,
            #[trigger] sort_values(values, sort_named(v)->0)[i].variant_name,
        ),
        normalized(v) == "value"@ ==> sort_named(v) == Some(DefineEnumSort::Value) && forall|
            i: int,
            j: int,
        | 0 <= i < j < values.len() ==> #[trigger] sort_values(values, sort_named(v)->0)[i].value
            <= #[trigger] sort_values(values, sort_named(v)->0)[j].value,
        normalized(v) == "valuedesc"@ ==> sort_named(v) == Some(DefineEnumSort::ValueDesc)
            && forall|i: int, j: int|
            0 <= i < j < values.len() ==> #[trigger] sort_values(values, sort_named(v)->0)[i].value
                >= #[trigger] sort_values(values, sort_named(v)->0)[j].value,
        normalized(v) != "name"@ && normalized(v) != "value"@ && normalized(v) != "valuedesc"@
            ==> sort_named(v) is None,
{
    reveal_strlit("name");
    reveal_strlit("value");
    reveal_strlit("valuedesc");
    assert("name"@.len() != "value"@.len() && "value"@.len() != "valuedesc"@.len()
        && "name"@.len() != "valuedesc"@.len());
    values.to_multiset_ensures();
    if sort_named(v) is Some {
        let s = sort_named(v)->0;
        let sorted = sort_values(values, s);
        lemma_sort_values(values, s);
        sorted.to_multiset_ensures();
        assert forall|i: int, j: int| 0 <= i < j < values.len() implies !goes_before(
            s,
            #[trigger] sorted[j],
            #[trigger] sorted[i],
        ) by {}
    }
}

/// The case names mean what they say, once normalized: `snake`; `constant`, `uppersnake`
/// and `screamingsnake` for the upper snake case; `ada`; `kebab`; `cobol` and `upperkebab`;
/// `train`; `flat`; `upperflat`; `pascal` and `uppercamel`; `camel`; `lower`; `upper`;
/// `title`; `sentence`. Any other name is unknown. As a case setting, `none`, `preserve` and
/// `raw` turn case conversion off, and every case name gives its case.
pub proof fn lemma_case_names(v: Seq<char>)
    ensures
        normalized(v) == "snake"@ ==> case_named(v) == Some(Case::Snake),
        normalized(v) == "constant"@ ==> case_named(v) == Some(Case::UpperSnake),
        normalized(v) == "uppersnake"@ ==> case_named(v) == Some(Case::UpperSnake),
        normalized(v) == "screamingsnake"@ ==> case_named(v) == Some(Case::UpperSnake),
        normalized(v) == "ada"@ ==> case_named(v) == Some(Case::Ada),
        normalized(v) == "kebab"@ ==> case_named(v) == Some(Case::Kebab),
        normalized(v) == "cobol"@ ==> case_named(v) == Some(Case::UpperKebab),
        normalized(v) == "upperkebab"@ ==> case_named(v) == Some(Case::UpperKebab),
        normalized(v) == "train"@ ==> case_named(v) == Some(Case::Train),
        normalized(v) == "flat"@ ==> case_named(v) == Some(Case::Flat),
        normalized(v) == "upperflat"@ ==> case_named(v) == Some(Case::UpperFlat),
        normalized(v) == "pascal"@ ==> case_named(v) == Some(Case::Pascal),
        normalized(v) == "uppercamel"@ ==> case_named(v) == Some(Case::Pascal),
        normalized(v) == "camel"@ ==> case_named(v) == Some(Case::Camel),
        normalized(v) == "lower"@ ==> case_named(v) == Some(Case::Lower),
        normalized(v) == "upper"@ ==> case_named(v) == Some(Case::Upper),
        normalized(v) == "title"@ ==> case_named(v) == Some(Case::Title),
        normalized(v) == "sentence"@ ==> case_named(v) == Some(Case::Sentence),
        (normalized(v) != "snake"@
            && normalized(v) != "constant"@
            && normalized(v) != "uppersnake"@
            && normalized(v) != "screamingsnake"@
            && normalized(v) != "ada"@
            && normalized(v) != "kebab"@
            && normalized(v) != "cobol"@
            && normalized(v) != "upperkebab"@
            && normalized(v) != "train"@
            && normalized(v) != "flat"@
            && normalized(v) != "upperflat"@
            && normalized(v) != "pascal"@
            && normalized(v) != "uppercamel"@
            && normalized(v) != "camel"@
            && normalized(v) != "lower"@
            && normalized(v) != "upper"@
            && normalized(v) != "title"@
            && normalized(v) != "sentence"@
        ) ==> case_named(v) is None,
        normalized(v) == "none"@ ==> case_setting_named(v) == Some(None::<Case>),
        normalized(v) == "preserve"@ ==> case_setting_named(v) == Some(None::<Case>),
        normalized(v) == "raw"@ ==> case_setting_named(v) == Some(None::<Case>),
        case_named(v) matches Some(c) ==> case_setting_named(v) == Some(Some(c)),
{
    reveal_strlit("snake");
    reveal_strlit("constant");
    reveal_strlit("uppersnake");
    reveal_strlit("screamingsnake");
    reveal_strlit("ada");
    reveal_strlit("kebab");
    reveal_strlit("cobol");
    reveal_strlit("upperkebab");
    reveal_strlit("train");
    reveal_strlit("flat");
    reveal_strlit("upperflat");
    reveal_strlit("pascal");
    reveal_strlit("uppercamel");
    reveal_strlit("camel");
    reveal_strlit("lower");
    reveal_strlit("upper");
    reveal_strlit("title");
    reveal_strlit("sentence");
    reveal_strlit("none");
    reveal_strlit("preserve");
    reveal_strlit("raw");
    assert("snake"@[0] != "kebab"@[0]);
    assert("snake"@[0] != "cobol"@[0]);
    assert("snake"@[0] != "train"@[0]);
    assert("snake"@[0] != "camel"@[0]);
    assert("snake"@[0] != "lower"@[0]);
    assert("snake"@[0] != "upper"@[0]);
    assert("snake"@[0] != "title"@[0]);
    assert("constant"@[0] != "sentence"@[0]);
    assert("constant"@[0] != "preserve"@[0]);
    assert("uppersnake"@[5] != "upperkebab"@[5]);
    assert("uppersnake"@[5] != "uppercamel"@[5]);
    assert("ada"@[0] != "raw"@[0]);
    assert("kebab"@[0] != "cobol"@[0]);
    assert("kebab"@[0] != "train"@[0]);
    assert("kebab"@[0] != "camel"@[0]);
    assert("kebab"@[0] != "lower"@[0]);
    assert("kebab"@[0] != "upper"@[0]);
    assert("kebab"@[0] != "title"@[0]);
    assert("cobol"@[0] != "train"@[0]);
    assert("cobol"@[1] != "camel"@[1]);
    assert("cobol"@[0] != "lower"@[0]);
    assert("cobol"@[0] != "upper"@[0]);
    assert("cobol"@[0] != "title"@[0]);
    assert("upperkebab"@[5] != "uppercamel"@[5]);
    assert("train"@[0] != "camel"@[0]);
    assert("train"@[0] != "lower"@[0]);
    assert("train"@[0] != "upper"@[0]);
    assert("train"@[1] != "title"@[1]);
    assert("flat"@[0] != "none"@[0]);
    assert("camel"@[0] != "lower"@[0]);
    assert("camel"@[0] != "upper"@[0]);
    assert("camel"@[0] != "title"@[0]);
    assert("lower"@[0] != "upper"@[0]);
    assert("lower"@[0] != "title"@[0]);
    assert("upper"@[0] != "title"@[0]);
    assert("sentence"@[0] != "preserve"@[0]);
    assert("snake"@.len() == 5);
    assert("constant"@.len() == 8);
    assert("uppersnake"@.len() == 10);
    assert("screamingsnake"@.len() == 14);
    assert("ada"@.len() == 3);
    assert("kebab"@.len() == 5);
    assert("cobol"@.len() == 5);
    assert("upperkebab"@.len() == 10);
    assert("train"@.len() == 5);
    assert("flat"@.len() == 4);
    assert("upperflat"@.len() == 9);
    assert("pascal"@.len() == 6);
    assert("uppercamel"@.len() == 10);
    assert("camel"@.len() == 5);
    assert("lower"@.len() == 5);
    assert("upper"@.len() == 5);
    assert("title"@.len() == 5);
    assert("sentence"@.len() == 8);
    assert("none"@.len() == 4);
    assert("preserve"@.len() == 8);
    assert("raw"@.len() == 3);
}

/// A config without rules leaves the helpers as they are.
pub proof fn lemma_empty_config_changes_nothing(cfg: HelperConfig, r: RenamerModel)
    requires
        cfg.rename_item@.len() == 0,
        cfg.rename_many@.len() == 0,
        cfg.rename_enum@.len() == 0,
        cfg.rename_enum_value@.len() == 0,
        cfg.define_enum@.len() == 0,
    ensures
        apply_outcome(cfg, r) == ApplyState::Running(r),
{
}

/// `b` holds the rules of `a`, in the same order, possibly followed by more.
pub open spec fn extends(a: RenamerModel, b: RenamerModel) -> bool {
    &&& b.debug == a.debug
    &&& a.items.len() <= b.items.len() && b.items.take(a.items.len() as int) == a.items
    &&& a.many.len() <= b.many.len() && b.many.take(a.many.len() as int) == a.many
    &&& a.enums.len() <= b.enums.len() && b.enums.take(a.enums.len() as int) == a.enums
    &&& a.defines.len() <= b.defines.len() && b.defines.take(a.defines.len() as int) == a.defines
}

/// The rules that a state holds, unless it aborted.
pub open spec fn rules_of(st: ApplyState) -> Option<RenamerModel> {
    match st {
        ApplyState::Running(r) => Some(r),
        ApplyState::Failed(_, r) => Some(r),
        ApplyState::Aborted => None,
    }
}

/// A step only adds rules.
pub open spec fn only_adds<T>(step: spec_fn(ApplyState, T) -> ApplyState) -> bool {
    forall|s: ApplyState, e: T|
        #[trigger] rules_of(step(s, e)) is Some ==> rules_of(s) is Some && extends(
            rules_of(s)->0,
            rules_of(step(s, e))->0,
        )
}

proof fn lemma_extends_transitive(a: RenamerModel, b: RenamerModel, c: RenamerModel)
    requires
        extends(a, b),
        extends(b, c),
    ensures
        extends(a, c),
{
    assert(c.items.take(a.items.len() as int) =~= c.items.take(b.items.len() as int).take(
        a.items.len() as int,
    ));
    assert(c.many.take(a.many.len() as int) =~= c.many.take(b.many.len() as int).take(
        a.many.len() as int,
    ));
    assert(c.enums.take(a.enums.len() as int) =~= c.enums.take(b.enums.len() as int).take(
        a.enums.len() as int,
    ));
    assert(c.defines.take(a.defines.len() as int) =~= c.defines.take(
        b.defines.len() as int,
    ).take(a.defines.len() as int));
}

proof fn lemma_extends_reflexive(a: RenamerModel)
    ensures
        extends(a, a),
{
    assert(a.items.take(a.items.len() as int) =~= a.items);
    assert(a.many.take(a.many.len() as int) =~= a.many);
    assert(a.enums.take(a.enums.len() as int) =~= a.enums);
    assert(a.defines.take(a.defines.len() as int) =~= a.defines);
}

proof fn lemma_fold_only_adds<T>(st: ApplyState, es: Seq<T>, step: spec_fn(ApplyState, T) -> ApplyState)
    requires
        only_adds(step),
        rules_of(fold_steps(st, es, step)) is Some,
    ensures
        rules_of(st) is Some,
        extends(rules_of(st)->0, rules_of(fold_steps(st, es, step))->0),
    decreases es.len(),
{
    if es.len() == 0 {
        lemma_extends_reflexive(rules_of(st)->0);
    } else {
        let mid = fold_steps(st, es.drop_last(), step);
        assert(rules_of(step(mid, es.last())) is Some);
        lemma_fold_only_adds(st, es.drop_last(), step);
        lemma_extends_transitive(
            rules_of(st)->0,
            rules_of(mid)->0,
            rules_of(fold_steps(st, es, step))->0,
        );
    }
}

proof fn lemma_steps_only_add()
    ensures
        only_adds(item_steps()),
        only_adds(many_steps()),
        only_adds(enum_steps()),
        only_adds(enum_value_steps()),
        only_adds(define_steps()),
{
    assert forall|s: ApplyState, e: RenameItemConfig|
        #[trigger] rules_of(item_steps()(s, e)) is Some implies rules_of(s) is Some && extends(
            rules_of(s)->0,
            rules_of(item_steps()(s, e))->0,
        ) by {
        lemma_extends_reflexive(rules_of(s)->0);
        let a = rules_of(s)->0;
        assert(a.items.push((e.c@, e.rust@)).take(a.items.len() as int) =~= a.items);
    }
    assert forall|s: ApplyState, e: RenameManyConfig|
        #[trigger] rules_of(many_steps()(s, e)) is Some implies rules_of(s) is Some && extends(
            rules_of(s)->0,
            rules_of(many_steps()(s, e))->0,
        ) by {
        lemma_extends_reflexive(rules_of(s)->0);
        let a = rules_of(s)->0;
        if let Ok(ir) = ident_outcome(e.renamer, None) {
            assert(a.many.push((e.matcher@, ir)).take(a.many.len() as int) =~= a.many);
        }
    }
    assert forall|s: ApplyState, e: RenameEnumConfig|
        #[trigger] rules_of(enum_steps()(s, e)) is Some implies rules_of(s) is Some && extends(
            rules_of(s)->0,
            rules_of(enum_steps()(s, e))->0,
        ) by {
        lemma_extends_reflexive(rules_of(s)->0);
        let a = rules_of(s)->0;
        assert(a.items.push((e.c@, e.rust@)).take(a.items.len() as int) =~= a.items);
        if let Ok(ir) = ident_outcome(e.renamer, Some(Case::Pascal)) {
            assert(a.enums.push((Some(enum_pattern(e.c@)), ir)).take(a.enums.len() as int)
                =~= a.enums);
        }
    }
    assert forall|s: ApplyState, e: RenameEnumValueConfig|
        #[trigger] rules_of(enum_value_steps()(s, e)) is Some implies rules_of(s) is Some
            && extends(rules_of(s)->0, rules_of(enum_value_steps()(s, e))->0) by {
        lemma_extends_reflexive(rules_of(s)->0);
        let a = rules_of(s)->0;
        let pattern = match e.enum_match {
            Some(p) => Some(p@),
            None => None,
        };
        if let Ok(ir) = ident_outcome(e.renamer, Some(Case::Pascal)) {
            assert(a.enums.push((pattern, ir)).take(a.enums.len() as int) =~= a.enums);
        }
    }
    assert forall|s: ApplyState, e: DefineEnumConfig|
        #[trigger] rules_of(define_steps()(s, e)) is Some implies rules_of(s) is Some && extends(
            rules_of(s)->0,
            rules_of(define_steps()(s, e))->0,
        ) by {
        lemma_extends_reflexive(rules_of(s)->0);
        let a = rules_of(s)->0;
        if let Ok(ir) = ident_outcome(e.renamer, Some(Case::Pascal)) {
            assert(a.defines.push(define_model(e, ir)).take(a.defines.len() as int) =~= a.defines);
        }
    }
}

/// Applying a config only adds rules: the rules that were there before stay, in order,
/// whether it applies in full or stops at an error.
pub proof fn lemma_apply_keeps_rules(cfg: HelperConfig, r: RenamerModel)
    ensures
        rules_of(apply_outcome(cfg, r)) is Some ==> extends(r, rules_of(apply_outcome(cfg, r))->0),
{
    lemma_steps_only_add();
    let s1 = fold_steps(ApplyState::Running(r), cfg.rename_item@, item_steps());
    let s2 = fold_steps(s1, cfg.rename_many@, many_steps());
    let s3 = fold_steps(s2, cfg.rename_enum@, enum_steps());
    let s4 = fold_steps(s3, cfg.rename_enum_value@, enum_value_steps());
    let s5 = fold_steps(s4, cfg.define_enum@, define_steps());
    if rules_of(s5) is Some {
        lemma_fold_only_adds(s4, cfg.define_enum@, define_steps());
        lemma_fold_only_adds(s3, cfg.rename_enum_value@, enum_value_steps());
        lemma_fold_only_adds(s2, cfg.rename_enum@, enum_steps());
        lemma_fold_only_adds(s1, cfg.rename_many@, many_steps());
        lemma_fold_only_adds(ApplyState::Running(r), cfg.rename_item@, item_steps());
        lemma_extends_transitive(r, rules_of(s1)->0, rules_of(s2)->0);
        lemma_extends_transitive(r, rules_of(s2)->0, rules_of(s3)->0);
        lemma_extends_transitive(r, rules_of(s3)->0, rules_of(s4)->0);
        lemma_extends_transitive(r, rules_of(s4)->0, rules_of(s5)->0);
    }
}

/// `b` has the rules of `a` but for the lists marked as changed.
spec fn same_but(
    a: RenamerModel,
    b: RenamerModel,
    items: bool,
    many: bool,
    enums: bool,
    defines: bool,
) -> bool {
    &&& b.debug == a.debug
    &&& !items ==> b.items == a.items
    &&& !many ==> b.many == a.many
    &&& !enums ==> b.enums == a.enums
    &&& !defines ==> b.defines == a.defines
}

/// The enum variant rule for the enum `c`, with its variant renamer.
spec fn enum_rule_for(
    rule: (Option<Seq<char>>, IdentRenamerModel),
    pattern: Option<Seq<char>>,
    e: IdentRenamerConfig,
) -> bool {
    &&& rule.0 == pattern
    &&& ident_outcome(e, Some(Case::Pascal)) == Ok::<IdentRenamerModel, ConfigErrorModel>(rule.1)
}

proof fn lemma_item_fold(st: ApplyState, es: Seq<RenameItemConfig>)
    requires
        fold_steps(st, es, item_steps()) is Running,
    ensures
        st is Running,
        ({
            let before = rules_of(st)->0.items;
            let after = rules_of(fold_steps(st, es, item_steps()))->0.items;
            &&& after.len() == before.len() + es.len()
            &&& after.take(before.len() as int) == before
            &&& forall|k: int|
                0 <= k < es.len() ==> after[before.len() + k] == (
                    (#[trigger] es[k]).c@,
                    es[k].rust@,
                )
        }),
        same_but(
            rules_of(st)->0,
            rules_of(fold_steps(st, es, item_steps()))->0,
            true,
            false,
            false,
            false,
        ),
    decreases es.len(),
{
    let fin = fold_steps(st, es, item_steps());
    if es.len() == 0 {
        assert(rules_of(st)->0.items.take(rules_of(st)->0.items.len() as int)
            =~= rules_of(st)->0.items);
    } else {
        let prev = es.drop_last();
        let mid = fold_steps(st, prev, item_steps());
        assert(step_item(mid, es.last()) is Running);
        lemma_item_fold(st, prev);
        let before = rules_of(st)->0.items;
        let m = rules_of(mid)->0.items;
        let after = rules_of(fin)->0.items;
        assert(after == m.push((es.last().c@, es.last().rust@)));
        assert(after.take(before.len() as int) =~= m.take(before.len() as int));
        assert forall|k: int| 0 <= k < es.len() implies after[before.len() + k] == (
            (#[trigger] es[k]).c@,
            es[k].rust@,
        ) by {
            if k < prev.len() {
                assert(es[k] == prev[k]);
                assert(after[before.len() + k] == m[before.len() + k]);
            }
        }
    }
}

proof fn lemma_many_fold(st: ApplyState, es: Seq<RenameManyConfig>)
    requires
        fold_steps(st, es, many_steps()) is Running,
    ensures
        st is Running,
        ({
            let before = rules_of(st)->0.many;
            let after = rules_of(fold_steps(st, es, many_steps()))->0.many;
            &&& after.len() == before.len() + es.len()
            &&& after.take(before.len() as int) == before
            &&& forall|k: int|
                0 <= k < es.len() ==> after[before.len() + k].0 == (#[trigger] es[k]).matcher@
                    && ident_outcome(es[k].renamer, None) == Ok::<
                    IdentRenamerModel,
                    ConfigErrorModel,
                >(after[before.len() + k].1)
        }),
        same_but(
            rules_of(st)->0,
            rules_of(fold_steps(st, es, many_steps()))->0,
            false,
            true,
            false,
            false,
        ),
    decreases es.len(),
{
    let fin = fold_steps(st, es, many_steps());
    if es.len() == 0 {
        assert(rules_of(st)->0.many.take(rules_of(st)->0.many.len() as int)
            =~= rules_of(st)->0.many);
    } else {
        let prev = es.drop_last();
        let mid = fold_steps(st, prev, many_steps());
        assert(step_many(mid, es.last()) is Running);
        lemma_many_fold(st, prev);
        let before = rules_of(st)->0.many;
        let m = rules_of(mid)->0.many;
        let after = rules_of(fin)->0.many;
        let ir = ident_outcome(es.last().renamer, None)->Ok_0;
        assert(after == m.push((es.last().matcher@, ir)));
        assert(after.take(before.len() as int) =~= m.take(before.len() as int));
        assert forall|k: int| 0 <= k < es.len() implies after[before.len() + k].0 == (
        #[trigger] es[k]).matcher@ && ident_outcome(es[k].renamer, None) == Ok::<
            IdentRenamerModel,
            ConfigErrorModel,
        >(after[before.len() + k].1) by {
            if k < prev.len() {
                assert(es[k] == prev[k]);
                assert(after[before.len() + k] == m[before.len() + k]);
            }
        }
    }
}

proof fn lemma_enum_fold(st: ApplyState, es: Seq<RenameEnumConfig>)
    requires
        fold_steps(st, es, enum_steps()) is Running,
    ensures
        st is Running,
        ({
            let bi = rules_of(st)->0.items;
            let ai = rules_of(fold_steps(st, es, enum_steps()))->0.items;
            let be = rules_of(st)->0.enums;
            let ae = rules_of(fold_steps(st, es, enum_steps()))->0.enums;
            &&& ai.len() == bi.len() + es.len()
            &&& ai.take(bi.len() as int) == bi
            &&& ae.len() == be.len() + es.len()
            &&& ae.take(be.len() as int) == be
            &&& forall|k: int|
                0 <= k < es.len() ==> ai[bi.len() + k] == ((#[trigger] es[k]).c@, es[k].rust@)
                    && enum_rule_for(ae[be.len() + k], Some(enum_pattern(es[k].c@)), es[k].renamer)
        }),
        same_but(
            rules_of(st)->0,
            rules_of(fold_steps(st, es, enum_steps()))->0,
            true,
            false,
            true,
            false,
        ),
    decreases es.len(),
{
    let fin = fold_steps(st, es, enum_steps());
    if es.len() == 0 {
        assert(rules_of(st)->0.items.take(rules_of(st)->0.items.len() as int)
            =~= rules_of(st)->0.items);
        assert(rules_of(st)->0.enums.take(rules_of(st)->0.enums.len() as int)
            =~= rules_of(st)->0.enums);
    } else {
        let prev = es.drop_last();
        let mid = fold_steps(st, prev, enum_steps());
        assert(step_enum(mid, es.last()) is Running);
        lemma_enum_fold(st, prev);
        let bi = rules_of(st)->0.items;
        let mi = rules_of(mid)->0.items;
        let ai = rules_of(fin)->0.items;
        let be = rules_of(st)->0.enums;
        let me = rules_of(mid)->0.enums;
        let ae = rules_of(fin)->0.enums;
        let e = es.last();
        let ir = ident_outcome(e.renamer, Some(Case::Pascal))->Ok_0;
        assert(ai == mi.push((e.c@, e.rust@)));
        assert(ae == me.push((Some(enum_pattern(e.c@)), ir)));
        assert(ai.take(bi.len() as int) =~= mi.take(bi.len() as int));
        assert(ae.take(be.len() as int) =~= me.take(be.len() as int));
        assert forall|k: int| 0 <= k < es.len() implies ai[bi.len() + k] == (
            (#[trigger] es[k]).c@,
            es[k].rust@,
        ) && enum_rule_for(ae[be.len() + k], Some(enum_pattern(es[k].c@)), es[k].renamer) by {
            if k < prev.len() {
                assert(es[k] == prev[k]);
                assert(ai[bi.len() + k] == mi[bi.len() + k]);
                assert(ae[be.len() + k] == me[be.len() + k]);
            }
        }
    }
}

proof fn lemma_enum_value_fold(st: ApplyState, es: Seq<RenameEnumValueConfig>)
    requires
        fold_steps(st, es, enum_value_steps()) is Running,
    ensures
        st is Running,
        ({
            let before = rules_of(st)->0.enums;
            let after = rules_of(fold_steps(st, es, enum_value_steps()))->0.enums;
            &&& after.len() == before.len() + es.len()
            &&& after.take(before.len() as int) == before
            &&& forall|k: int|
                0 <= k < es.len() ==> enum_rule_for(
                    after[before.len() + k],
                    match (#[trigger] es[k]).enum_match {
                        Some(p) => Some(p@),
                        None => None,
                    },
                    es[k].renamer,
                )
        }),
        same_but(
            rules_of(st)->0,
            rules_of(fold_steps(st, es, enum_value_steps()))->0,
            false,
            false,
            true,
            false,
        ),
    decreases es.len(),
{
    let fin = fold_steps(st, es, enum_value_steps());
    if es.len() == 0 {
        assert(rules_of(st)->0.enums.take(rules_of(st)->0.enums.len() as int)
            =~= rules_of(st)->0.enums);
    } else {
        let prev = es.drop_last();
        let mid = fold_steps(st, prev, enum_value_steps());
        assert(step_enum_value(mid, es.last()) is Running);
        lemma_enum_value_fold(st, prev);
        let before = rules_of(st)->0.enums;
        let m = rules_of(mid)->0.enums;
        let after = rules_of(fin)->0.enums;
        let e = es.last();
        let pattern = match e.enum_match {
            Some(p) => Some(p@),
            None => None,
        };
        let ir = ident_outcome(e.renamer, Some(Case::Pascal))->Ok_0;
        assert(after == m.push((pattern, ir)));
        assert(after.take(before.len() as int) =~= m.take(before.len() as int));
        assert forall|k: int| 0 <= k < es.len() implies enum_rule_for(
            after[before.len() + k],
            match (#[trigger] es[k]).enum_match {
                Some(p) => Some(p@),
                None => None,
            },
            es[k].renamer,
        ) by {
            if k < prev.len() {
                assert(es[k] == prev[k]);
                assert(after[before.len() + k] == m[before.len() + k]);
            }
        }
    }
}

/// A step that leaves the define collectors of a running state as they are, and stops
/// nothing that was not running.
spec fn keeps_defines<T>(step: spec_fn(ApplyState, T) -> ApplyState) -> bool {
    forall|s: ApplyState, e: T|
        #[trigger] step(s, e) is Running ==> s is Running && rules_of(step(s, e))->0.defines
            == rules_of(s)->0.defines
}

proof fn lemma_fold_keeps_defines<T>(
    st: ApplyState,
    es: Seq<T>,
    step: spec_fn(ApplyState, T) -> ApplyState,
)
    requires
        keeps_defines(step),
        fold_steps(st, es, step) is Running,
    ensures
        st is Running,
        rules_of(fold_steps(st, es, step))->0.defines == rules_of(st)->0.defines,
    decreases es.len(),
{
    if es.len() > 0 {
        let mid = fold_steps(st, es.drop_last(), step);
        assert(step(mid, es.last()) is Running);
        lemma_fold_keeps_defines(st, es.drop_last(), step);
    }
}

proof fn lemma_steps_keep_defines()
    ensures
        keeps_defines(item_steps()),
        keeps_defines(many_steps()),
        keeps_defines(enum_steps()),
        keeps_defines(enum_value_steps()),
{
}

/// The collector `d` is the one that the define enum rule `e` describes, before anything
/// was collected.
spec fn collector_for(d: DefineEnumModel, e: DefineEnumConfig) -> bool {
    &&& d.enum_name == e.name@
    &&& d.matcher == e.matcher@
    &&& d.exclude == strings_view(e.exclude@)
    &&& d.min == e.min
    &&& d.max == e.max
    &&& (e.repr matches Some(x) ==> d.repr == Some(x@))
    &&& (e.repr is None ==> d.repr is None)
    &&& (e.sort matches Some(x) ==> d.sort == sort_named(x@))
    &&& (e.sort is None ==> d.sort is None)
    &&& (e.derives matches Some(x) ==> d.derives == Some(strings_view(x@)))
    &&& (e.derives is None ==> d.derives is None)
    &&& ident_outcome(e.renamer, Some(Case::Pascal)) == Ok::<IdentRenamerModel, ConfigErrorModel>(
        d.renamer,
    )
    &&& d.values.len() == 0
}

proof fn lemma_define_fold(st: ApplyState, es: Seq<DefineEnumConfig>)
    requires
        fold_steps(st, es, define_steps()) is Running,
    ensures
        st is Running,
        ({
            let before = rules_of(st)->0.defines;
            let after = rules_of(fold_steps(st, es, define_steps()))->0.defines;
            &&& after.len() == before.len() + es.len()
            &&& after.take(before.len() as int) == before
            &&& forall|k: int|
                0 <= k < es.len() ==> collector_for(after[before.len() + k], #[trigger] es[k])
        }),
        same_but(
            rules_of(st)->0,
            rules_of(fold_steps(st, es, define_steps()))->0,
            false,
            false,
            false,
            true,
        ),
    decreases es.len(),
{
    let fin = fold_steps(st, es, define_steps());
    if es.len() == 0 {
        assert(rules_of(st)->0.defines.take(rules_of(st)->0.defines.len() as int)
            =~= rules_of(st)->0.defines);
    } else {
        let prev = es.drop_last();
        let mid = fold_steps(st, prev, define_steps());
        assert(step_define(mid, es.last()) is Running);
        lemma_define_fold(st, prev);
        let before = rules_of(st)->0.defines;
        let m = rules_of(mid)->0.defines;
        let after = rules_of(fin)->0.defines;
        let e = es.last();
        let ir = ident_outcome(e.renamer, Some(Case::Pascal))->Ok_0;
        assert(after == m.push(define_model(e, ir)));
        assert(after.take(before.len() as int) =~= m.take(before.len() as int));
        assert forall|k: int| 0 <= k < es.len() implies collector_for(
            after[before.len() + k],
            #[trigger] es[k],
        ) by {
            if k < prev.len() {
                assert(es[k] == prev[k]);
                assert(after[before.len() + k] == m[before.len() + k]);
            }
        }
    }
}

/// Applying a config that succeeds adds one collector per define enum rule, in order, after
/// the collectors that were there; each carries its rule's name, matcher, exclusions, bounds,
/// repr, sort, derives and renamer, and has collected nothing. So a constant outside a
/// rule's `min`/`max` is never collected by that rule's collector.
pub proof fn lemma_apply_adds_define_collectors(cfg: HelperConfig, r: RenamerModel)
    ensures
        apply_outcome(cfg, r) is Running ==> ({
            let after = rules_of(apply_outcome(cfg, r))->0.defines;
            &&& after.len() == r.defines.len() + cfg.define_enum@.len()
            &&& after.take(r.defines.len() as int) == r.defines
            &&& forall|k: int|
                0 <= k < cfg.define_enum@.len() ==> {
                    let d = after[r.defines.len() + k];
                    let e = #[trigger] cfg.define_enum@[k];
                    &&& d.enum_name == e.name@
                    &&& d.matcher == e.matcher@
                    &&& d.exclude == strings_view(e.exclude@)
                    &&& d.min == e.min
                    &&& d.max == e.max
                    &&& (e.repr matches Some(x) ==> d.repr == Some(x@))
                    &&& (e.repr is None ==> d.repr is None)
                    &&& (e.sort matches Some(x) ==> d.sort == sort_named(x@))
                    &&& (e.sort is None ==> d.sort is None)
                    &&& d.values.len() == 0
                    &&& forall|name: Seq<char>, value: i64|
                        (e.max matches Some(hi) && value > hi) || (e.min matches Some(lo) && value
                            < lo) ==> !#[trigger] d.accepts(name, value)
                }
        }),
{
    let s1 = fold_steps(ApplyState::Running(r), cfg.rename_item@, item_steps());
    let s2 = fold_steps(s1, cfg.rename_many@, many_steps());
    let s3 = fold_steps(s2, cfg.rename_enum@, enum_steps());
    let s4 = fold_steps(s3, cfg.rename_enum_value@, enum_value_steps());
    let s5 = fold_steps(s4, cfg.define_enum@, define_steps());
    if s5 is Running {
        lemma_steps_keep_defines();
        lemma_define_fold(s4, cfg.define_enum@);
        lemma_fold_keeps_defines(s3, cfg.rename_enum_value@, enum_value_steps());
        lemma_fold_keeps_defines(s2, cfg.rename_enum@, enum_steps());
        lemma_fold_keeps_defines(s1, cfg.rename_many@, many_steps());
        lemma_fold_keeps_defines(ApplyState::Running(r), cfg.rename_item@, item_steps());
    }
}

/// Applying a config that succeeds adds its rename rules after those that were there, in
/// the order of the config: the exact item renames, then one item rename per enum rule;
/// one regex item rule per `rename_many` entry; one variant rule per enum rule, for the
/// pattern `^(enum )?NAME$`, then one per `rename_enum_value` entry. Each carries the
/// rule's names, pattern and renamer; the debug flag stays as it was.
pub proof fn lemma_apply_adds_rename_rules(cfg: HelperConfig, r: RenamerModel)
    ensures
        apply_outcome(cfg, r) is Running ==> ({
            let a = rules_of(apply_outcome(cfg, r))->0;
            let ni = r.items.len();
            let ne = r.enums.len();
            let nr = cfg.rename_item@.len();
            let nn = cfg.rename_enum@.len();
            &&& a.debug == r.debug
            &&& a.items.len() == ni + nr + nn
            &&& a.items.take(ni as int) == r.items
            &&& forall|k: int|
                0 <= k < nr ==> a.items[ni + k] == ((#[trigger] cfg.rename_item@[k]).c@,
                    cfg.rename_item@[k].rust@)
            &&& forall|k: int|
                0 <= k < nn ==> a.items[ni + nr + k] == ((#[trigger] cfg.rename_enum@[k]).c@,
                    cfg.rename_enum@[k].rust@)
            &&& a.many.len() == r.many.len() + cfg.rename_many@.len()
            &&& a.many.take(r.many.len() as int) == r.many
            &&& forall|k: int|
                0 <= k < cfg.rename_many@.len() ==> a.many[r.many.len() + k].0 == (
                #[trigger] cfg.rename_many@[k]).matcher@ && ident_outcome(
                    cfg.rename_many@[k].renamer,
                    None,
                ) == Ok::<IdentRenamerModel, ConfigErrorModel>(a.many[r.many.len() + k].1)
            &&& a.enums.len() == ne + nn + cfg.rename_enum_value@.len()
            &&& a.enums.take(ne as int) == r.enums
            &&& forall|k: int|
                0 <= k < nn ==> a.enums[ne + k].0 == Some(
                    "^(enum )?"@ + (#[trigger] cfg.rename_enum@[k]).c@ + "$"@,
                ) && ident_outcome(cfg.rename_enum@[k].renamer, Some(Case::Pascal)) == Ok::<
                    IdentRenamerModel,
                    ConfigErrorModel,
                >(a.enums[ne + k].1)
            &&& forall|k: int|
                0 <= k < cfg.rename_enum_value@.len() ==> a.enums[ne + nn + k].0 == match (
                #[trigger] cfg.rename_enum_value@[k]).enum_match {
                    Some(p) => Some(p@),
                    None => None,
                } && ident_outcome(cfg.rename_enum_value@[k].renamer, Some(Case::Pascal)) == Ok::<
                    IdentRenamerModel,
                    ConfigErrorModel,
                >(a.enums[ne + nn + k].1)
        }),
{
    let s0 = ApplyState::Running(r);
    let s1 = fold_steps(s0, cfg.rename_item@, item_steps());
    let s2 = fold_steps(s1, cfg.rename_many@, many_steps());
    let s3 = fold_steps(s2, cfg.rename_enum@, enum_steps());
    let s4 = fold_steps(s3, cfg.rename_enum_value@, enum_value_steps());
    let s5 = fold_steps(s4, cfg.define_enum@, define_steps());
    if s5 is Running {
        lemma_define_fold(s4, cfg.define_enum@);
        lemma_enum_value_fold(s3, cfg.rename_enum_value@);
        lemma_enum_fold(s2, cfg.rename_enum@);
        lemma_many_fold(s1, cfg.rename_many@);
        lemma_item_fold(s0, cfg.rename_item@);
        let r1 = rules_of(s1)->0;
        let r2 = rules_of(s2)->0;
        let r3 = rules_of(s3)->0;
        let r4 = rules_of(s4)->0;
        let a = rules_of(s5)->0;
        let ni = r.items.len();
        let ne = r.enums.len();
        let nr = cfg.rename_item@.len();
        let nn = cfg.rename_enum@.len();
        assert(a.items == r3.items && r2.items == r1.items);
        assert(a.many == r2.many && r3.many == r2.many);
        assert(a.enums == r4.enums && r2.enums == r.enums && r1.enums == r.enums);
        assert(r1.many == r.many);
        assert(a.items.take(ni as int) =~= r3.items.take(r2.items.len() as int).take(ni as int));
        assert(a.enums.take(ne as int) =~= r4.enums.take(r3.enums.len() as int).take(ne as int));
        assert forall|k: int| 0 <= k < nr implies a.items[ni + k] == (
            (#[trigger] cfg.rename_item@[k]).c@,
            cfg.rename_item@[k].rust@,
        ) by {
            assert(r3.items.take(r2.items.len() as int)[ni + k] == r3.items[ni + k]);
        }
        assert forall|k: int| 0 <= k < nn implies a.enums[ne + k].0 == Some(
            "^(enum )?"@ + (#[trigger] cfg.rename_enum@[k]).c@ + "$"@,
        ) && ident_outcome(cfg.rename_enum@[k].renamer, Some(Case::Pascal)) == Ok::<
            IdentRenamerModel,
            ConfigErrorModel,
        >(a.enums[ne + k].1) by {
            assert(r4.enums.take(r3.enums.len() as int)[ne + k] == r4.enums[ne + k]);
            assert(enum_rule_for(r3.enums[ne + k], Some(enum_pattern(cfg.rename_enum@[k].c@)),
                cfg.rename_enum@[k].renamer));
        }
    }
}

} // verus!
