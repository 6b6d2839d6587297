//! The rename and collection rules consulted while bindings are generated.

use vstd::prelude::*;
use crate::define_enum::{DefineEnum, DefineEnumModel, join, join_strings, strings_view};
use crate::ident::{IdentRenamer, IdentRenamerModel, pairs_view, rename_lookup};
use crate::pattern::{Regex, regex_valid, regex_matches};
use crate::text::str_equal;

verus! {

/// What a [`Renamer`] holds, as plain values.
pub struct RenamerModel {
    pub debug: bool,
    /// Exact item renames, C name to Rust name.
    pub items: Seq<(Seq<char>, Seq<char>)>,
    /// Regex item renames.
    pub many: Seq<(Seq<char>, IdentRenamerModel)>,
    /// Enum variant renames, by a regex on the enum name, or for unnamed enums.
    pub enums: Seq<(Option<Seq<char>>, IdentRenamerModel)>,
    /// Define-backed enum collectors.
    pub defines: Seq<DefineEnumModel>,
}

/// The new name that the first regex rule matching `name` gives, if any.
pub open spec fn many_rename(many: Seq<(Seq<char>, IdentRenamerModel)>, name: Seq<char>) -> Option<
    Seq<char>,
>
    decreases many.len(),
{
    if many.len() == 0 {
        None
    } else if regex_matches(many[0].0, name) {
        Some(many[0].1.renamed(name))
    } else {
        many_rename(many.drop_first(), name)
    }
}

/// Whether an enum rule applies to an enum: a regex rule to a named enum it matches, a rule
/// without a regex to an unnamed enum.
pub open spec fn enum_rule_applies(pattern: Option<Seq<char>>, enum_name: Option<Seq<char>>) -> bool {
    match (pattern, enum_name) {
        (Some(p), Some(n)) => regex_matches(p, n),
        (None, None) => true,
        _ => false,
    }
}

/// The new name that the first enum rule applying to `enum_name` gives `variant`, if any.
pub open spec fn enum_rename(
    enums: Seq<(Option<Seq<char>>, IdentRenamerModel)>,
    enum_name: Option<Seq<char>>,
    variant: Seq<char>,
) -> Option<Seq<char>>
    decreases enums.len(),
{
    if enums.len() == 0 {
        None
    } else if enum_rule_applies(enums[0].0, enum_name) {
        Some(enums[0].1.renamed(variant))
    } else {
        enum_rename(enums.drop_first(), enum_name, variant)
    }
}

/// The regexes of the enum rules that have one, in order.
pub open spec fn enum_patterns(enums: Seq<(Option<Seq<char>>, IdentRenamerModel)>) -> Seq<Seq<char>>
    decreases enums.len(),
{
    if enums.len() == 0 {
        Seq::empty()
    } else {
        let rest = enum_patterns(enums.drop_last());
        match enums.last().0 {
            Some(p) => rest.push(p),
            None => rest,
        }
    }
}

/// A collector after the constant `name` with `value` was offered to it.
pub open spec fn offered(d: DefineEnumModel, name: Seq<char>, value: i64) -> DefineEnumModel {
    if d.accepts(name, value) {
        DefineEnumModel { values: d.values.push(d.entry(name, value)), ..d }
    } else {
        d
    }
}

/// The rendered collectors, concatenated in order.
pub open spec fn rendered_all(defines: Seq<DefineEnumModel>) -> Seq<char>
    decreases defines.len(),
{
    if defines.len() == 0 {
        Seq::empty()
    } else {
        rendered_all(defines.drop_last()) + defines.last().rendered()
    }
}

impl RenamerModel {
    /// The new name of the item `name`: its exact rename if there is one (the latest rule
    /// wins), else the rename of the first regex rule that matches it.
    pub open spec fn item_rename(self, name: Seq<char>) -> Option<Seq<char>> {
        match rename_lookup(self.items, name) {
            Some(target) => Some(target),
            None => many_rename(self.many, name),
        }
    }

    /// The regex of the enums that are generated as Rust enums: the enum rules' regexes,
    /// then the regex item rules', joined by `|`.
    pub open spec fn rustified_pattern(self) -> Seq<char> {
        join(enum_patterns(self.enums) + self.many.map_values(|m: (Seq<char>, IdentRenamerModel)| m.0), "|"@)
    }
}

/// Rename rules for items and enum variants, and the define-backed enums being collected.
#[derive(Debug)]
pub struct Renamer {
    debug: bool,
    item_renames: Vec<(String, String)>,
    item_renames_many: Vec<(Regex, IdentRenamer)>,
    enum_renames: Vec<(Option<Regex>, IdentRenamer)>,
    define_enums: Vec<DefineEnum>,
}

/// The views of the regex item rules.
pub open spec fn many_view(many: Seq<(Regex, IdentRenamer)>) -> Seq<(Seq<char>, IdentRenamerModel)> {
    many.map_values(|m: (Regex, IdentRenamer)| (m.0@, m.1@))
}

/// The views of the enum rules.
pub open spec fn enums_view(enums: Seq<(Option<Regex>, IdentRenamer)>) -> Seq<
    (Option<Seq<char>>, IdentRenamerModel),
> {
    enums.map_values(
        |e: (Option<Regex>, IdentRenamer)|
            (
                match e.0 {
                    Some(r) => Some(r@),
                    None => None,
                },
                e.1@,
            ),
    )
}

/// The views of the collectors.
pub open spec fn defines_view(defines: Seq<DefineEnum>) -> Seq<DefineEnumModel> {
    defines.map_values(|d: DefineEnum| d@)
}

impl View for Renamer {
    type V = RenamerModel;

    closed spec fn view(&self) -> RenamerModel {
        RenamerModel {
            debug: self.debug,
            items: pairs_view(self.item_renames@),
            many: many_view(self.item_renames_many@),
            enums: enums_view(self.enum_renames@),
            defines: defines_view(self.define_enums@),
        }
    }
}

impl Renamer {
    /// A renamer without rules; `debug` asks for warnings from the generation callbacks.
    pub fn new(debug: bool) -> (r: Renamer)
        ensures
            r@ == (RenamerModel {
                debug,
                items: Seq::empty(),
                many: Seq::empty(),
                enums: Seq::empty(),
                defines: Seq::empty(),
            }),
    {
        let r = Renamer {
            debug,
            item_renames: Vec::new(),
            item_renames_many: Vec::new(),
            enum_renames: Vec::new(),
            define_enums: Vec::new(),
        };
        assert(pairs_view(r.item_renames@) =~= Seq::empty());
        assert(many_view(r.item_renames_many@) =~= Seq::empty());
        assert(enums_view(r.enum_renames@) =~= Seq::empty());
        assert(defines_view(r.define_enums@) =~= Seq::empty());
        r
    }

    /// Whether the generation callbacks should print warnings.
    pub fn debug(&self) -> (d: bool)
        ensures
            d == self@.debug,
    {
        self.debug
    }

    /// Renames a single C item, e.g., a struct, enum, or a typedef.
    pub fn rename_item(&mut self, c_name: &str, rust_name: &str)
        ensures
            final(self)@ == (RenamerModel {
                items: old(self)@.items.push((c_name@, rust_name@)),
                ..old(self)@
            }),
    {
        let ghost before = self.item_renames@;
        self.item_renames.push((c_name.to_owned(), rust_name.to_owned()));
        assert(pairs_view(self.item_renames@) =~= pairs_view(before).push((c_name@, rust_name@)));
    }

    /// Renames the C items whose names `c_name` matches, with `renamer`.
    ///
    /// The regex must not contain `^` or `$`: it also selects the enums generated as Rust
    /// enums, inside a pattern that anchors it.
    pub fn rename_many(&mut self, c_name: Regex, renamer: IdentRenamer)
        requires
            !c_name@.contains('^'),
            !c_name@.contains('$'),
        ensures
            final(self)@ == (RenamerModel {
                many: old(self)@.many.push((c_name@, renamer@)),
                ..old(self)@
            }),
    {
        let ghost before = self.item_renames_many@;
        let ghost entry = (c_name@, renamer@);
        self.item_renames_many.push((c_name, renamer));
        assert(many_view(self.item_renames_many@) =~= many_view(before).push(entry));
    }

    /// Renames the variants of the enums whose names `enum_c_name` matches, or of unnamed
    /// enums when it is `None`, with `val_renamer`.
    pub fn rename_enum_val(&mut self, enum_c_name: Option<&str>, val_renamer: IdentRenamer)
        requires
            enum_c_name matches Some(p) ==> regex_valid(p@),
        ensures
            final(self)@ == (RenamerModel {
                enums: old(self)@.enums.push(
                    (
                        match enum_c_name {
                            Some(p) => Some(p@),
                            None => None,
                        },
                        val_renamer@,
                    ),
                ),
                ..old(self)@
            }),
    {
        let ghost before = self.enum_renames@;
        let ghost pattern = match enum_c_name {
            Some(p) => Some(p@),
            None => None::<Seq<char>>,
        };
        let ghost renamer_view = val_renamer@;
        let regex = match enum_c_name {
            Some(p) => match Regex::new(p) {
                Ok(re) => Some(re),
                Err(_) => None,
            },
            None => None,
        };
        self.enum_renames.push((regex, val_renamer));
        assert(enums_view(self.enum_renames@) =~= enums_view(before).push((pattern, renamer_view)));
    }

    /// The new name of the item `name`, if a rule renames it: the latest exact rename of it,
    /// else the first regex rule that matches it.
    pub fn item_name(&self, name: &str) -> (r: Option<String>)
        ensures
            match r {
                Some(s) => self@.item_rename(name@) == Some(s@),
                None => self@.item_rename(name@) is None,
            },
    {
        let mut found: Option<String> = None;
        let mut i: usize = 0;
        while i < self.item_renames.len()
            invariant
                i <= self.item_renames.len(),
                match found {
                    Some(t) => rename_lookup(pairs_view(self.item_renames@).take(i as int), name@)
                        == Some(t@),
                    None => rename_lookup(pairs_view(self.item_renames@).take(i as int), name@) is None,
                },
            decreases self.item_renames.len() - i,
        {
            assert(pairs_view(self.item_renames@).take(i + 1).drop_last() =~= pairs_view(
                self.item_renames@,
            ).take(i as int));
            if str_equal(self.item_renames[i].0.as_str(), name) {
                found = Some(self.item_renames[i].1.clone());
            }
            i = i + 1;
        }
        assert(pairs_view(self.item_renames@).take(self.item_renames.len() as int) =~= pairs_view(
            self.item_renames@,
        ));
        if found.is_some() {
            return found;
        }
        assert(rename_lookup(pairs_view(self.item_renames@), name@) is None);
        assert(self@.items == pairs_view(self.item_renames@));
        let ghost many = self@.many;
        let mut j: usize = 0;
        assert(many.skip(0) =~= many);
        while j < self.item_renames_many.len()
            invariant
                j <= self.item_renames_many.len(),
                many == many_view(self.item_renames_many@),
                many == self@.many,
                rename_lookup(self@.items, name@) is None,
                many_rename(many, name@) == many_rename(many.skip(j as int), name@),
            decreases self.item_renames_many.len() - j,
        {
            assert(many.skip(j as int).drop_first() =~= many.skip(j + 1));
            if self.item_renames_many[j].0.is_match(name) {
                let out = self.item_renames_many[j].1.apply(name);
                assert(many.skip(j as int)[0] == many[j as int]);
                assert(many[j as int] == (self.item_renames_many@[j as int].0@,
                    self.item_renames_many@[j as int].1@));
                assert(rename_lookup(self@.items, name@) is None);
                assert(many_rename(many.skip(j as int), name@) == Some(out@));
                assert(self@.item_rename(name@) == Some(out@));
                return Some(out);
            }
            j = j + 1;
        }
        None
    }

    /// The new name of the variant `variant` of the enum `enum_name` (`None` for an unnamed
    /// enum), if a rule renames it: the first enum rule that applies.
    pub fn enum_variant_name(&self, enum_name: Option<&str>, variant: &str) -> (r: Option<String>)
        ensures
            ({
                let en = match enum_name {
                    Some(n) => Some(n@),
                    None => None,
                };
                match r {
                    Some(s) => enum_rename(self@.enums, en, variant@) == Some(s@),
                    None => enum_rename(self@.enums, en, variant@) is None,
                }
            }),
    {
        let ghost en = match enum_name {
            Some(n) => Some(n@),
            None => None::<Seq<char>>,
        };
        let ghost enums = self@.enums;
        let mut j: usize = 0;
        assert(enums.skip(0) =~= enums);
        while j < self.enum_renames.len()
            invariant
                j <= self.enum_renames.len(),
                enums == enums_view(self.enum_renames@),
                en == match enum_name {
                    Some(n) => Some(n@),
                    None => None::<Seq<char>>,
                },
                enum_rename(enums, en, variant@) == enum_rename(enums.skip(j as int), en, variant@),
            decreases self.enum_renames.len() - j,
        {
            assert(enums.skip(j as int).drop_first() =~= enums.skip(j + 1));
            let applies = match (&self.enum_renames[j].0, enum_name) {
                (Some(re), Some(n)) => re.is_match(n),
                (None, None) => true,
                _ => false,
            };
            if applies {
                return Some(self.enum_renames[j].1.apply(variant));
            }
            j = j + 1;
        }
        None
    }

    /// Offers the integer macro `name` with `value` to every collector.
    pub fn int_macro(&mut self, name: &str, value: i64)
        ensures
            final(self)@ == (RenamerModel {
                defines: old(self)@.defines.map_values(|d: DefineEnumModel| offered(d, name@, value)),
                ..old(self)@
            }),
    {
        let ghost orig = self@.defines;
        let mut rest: Vec<DefineEnum> = Vec::new();
        std::mem::swap(&mut rest, &mut self.define_enums);
        let mut done: Vec<DefineEnum> = Vec::new();
        let n = rest.len();
        let mut i: usize = 0;
        while rest.len() > 0
            invariant
                n == orig.len(),
                i + rest.len() == n,
                defines_view(rest@) == orig.skip(i as int),
                defines_view(done@) == orig.take(i as int).map_values(
                    |d: DefineEnumModel| offered(d, name@, value),
                ),
            decreases rest.len(),
        {
            let ghost old_rest = rest@;
            let mut d = rest.remove(0);
            assert(defines_view(old_rest)[0] == orig.skip(i as int)[0]);
            assert(d@ == orig[i as int]);
            assert forall|k: int| 0 <= k < defines_view(rest@).len() implies defines_view(rest@)[k]
                == orig.skip(i + 1)[k] by {
                assert(defines_view(old_rest)[k + 1] == orig.skip(i as int)[k + 1]);
            }
            assert(defines_view(rest@) =~= orig.skip(i + 1));
            d.record_matching_macro(name, value);
            let ghost before = done@;
            let ghost dv = d@;
            assert(dv == offered(orig[i as int], name@, value));
            done.push(d);
            assert(defines_view(done@) =~= defines_view(before).push(dv));
            assert(orig.take(i + 1).map_values(|d: DefineEnumModel| offered(d, name@, value))
                =~= orig.take(i as int).map_values(|d: DefineEnumModel| offered(d, name@, value)).push(dv));
            assert(defines_view(done@) =~= orig.take(i + 1).map_values(
                |d: DefineEnumModel| offered(d, name@, value),
            ));
            i = i + 1;
        }
        assert(orig.take(n as int) =~= orig);
        self.define_enums = done;
    }

    /// The regex of the enums to generate as Rust enums: the enum rules' regexes, then the
    /// regex item rules', joined by `|`.
    pub fn get_regex_str(&self) -> (r: String)
        ensures
            r@ == self@.rustified_pattern(),
    {
        let ghost enums = self@.enums;
        let ghost many = self@.many;
        let ghost many_pats = many.map_values(|m: (Seq<char>, IdentRenamerModel)| m.0);
        let mut parts: Vec<String> = Vec::new();
        let mut i: usize = 0;
        while i < self.enum_renames.len()
            invariant
                i <= self.enum_renames.len(),
                enums == enums_view(self.enum_renames@),
                strings_view(parts@) == enum_patterns(enums.take(i as int)),
            decreases self.enum_renames.len() - i,
        {
            assert(enums.take(i + 1).drop_last() =~= enums.take(i as int));
            let ghost before = parts@;
            match &self.enum_renames[i].0 {
                Some(re) => {
                    parts.push(re.as_str().to_owned());
                    assert(strings_view(parts@) =~= strings_view(before).push(re@));
                },
                None => {},
            }
            i = i + 1;
        }
        assert(enums.take(self.enum_renames.len() as int) =~= enums);
        let ghost enum_part = strings_view(parts@);
        let mut j: usize = 0;
        while j < self.item_renames_many.len()
            invariant
                j <= self.item_renames_many.len(),
                many == many_view(self.item_renames_many@),
                many_pats == many.map_values(|m: (Seq<char>, IdentRenamerModel)| m.0),
                strings_view(parts@) == enum_part + many_pats.take(j as int),
            decreases self.item_renames_many.len() - j,
        {
            let ghost before = parts@;
            parts.push(self.item_renames_many[j].0.as_str().to_owned());
            assert(many_pats[j as int] == many[j as int].0);
            assert(many[j as int].0 == self.item_renames_many@[j as int].0@);
            assert(strings_view(parts@) =~= strings_view(before).push(many_pats[j as int]));
            assert(many_pats.take(j + 1) =~= many_pats.take(j as int).push(many_pats[j as int]));
            assert(strings_view(parts@) =~= enum_part + many_pats.take(j + 1));
            j = j + 1;
        }
        assert(many_pats.take(self.item_renames_many.len() as int) =~= many_pats);
        join_strings(&parts, "|")
    }

    /// Renders every collector, in order, and empties their collections.
    pub fn render_define_enums(&mut self) -> (out: String)
        ensures
            out@ == rendered_all(old(self)@.defines),
            final(self)@ == (RenamerModel {
                defines: old(self)@.defines.map_values(|d: DefineEnumModel| d.drained()),
                ..old(self)@
            }),
    {
        let ghost orig = self@.defines;
        let mut rest: Vec<DefineEnum> = Vec::new();
        std::mem::swap(&mut rest, &mut self.define_enums);
        let mut done: Vec<DefineEnum> = Vec::new();
        let mut out = String::new();
        let n = rest.len();
        let mut i: usize = 0;
        while rest.len() > 0
            invariant
                n == orig.len(),
                i + rest.len() == n,
                defines_view(rest@) == orig.skip(i as int),
                defines_view(done@) == orig.take(i as int).map_values(
                    |d: DefineEnumModel| d.drained(),
                ),
                out@ == rendered_all(orig.take(i as int)),
            decreases rest.len(),
        {
            let ghost old_rest = rest@;
            let mut d = rest.remove(0);
            assert(defines_view(old_rest)[0] == orig.skip(i as int)[0]);
            assert(d@ == orig[i as int]);
            assert forall|k: int| 0 <= k < defines_view(rest@).len() implies defines_view(rest@)[k]
                == orig.skip(i + 1)[k] by {
                assert(defines_view(old_rest)[k + 1] == orig.skip(i as int)[k + 1]);
            }
            assert(defines_view(rest@) =~= orig.skip(i + 1));
            let text = d.render();
            out.append(text.as_str());
            assert(orig.take(i + 1).drop_last() =~= orig.take(i as int));
            let ghost before = done@;
            let ghost dv = d@;
            done.push(d);
            assert(defines_view(done@) =~= defines_view(before).push(dv));
            assert(orig.take(i + 1).map_values(|d: DefineEnumModel| d.drained())
                =~= orig.take(i as int).map_values(|d: DefineEnumModel| d.drained()).push(dv));
            i = i + 1;
        }
        assert(orig.take(n as int) =~= orig);
        self.define_enums = done;
        out
    }

    /// Adds a define-backed enum collector.
    pub fn define_enum(&mut self, define_enum: DefineEnum)
        ensures
            final(self)@ == (RenamerModel {
                defines: old(self)@.defines.push(define_enum@),
                ..old(self)@
            }),
    {
        let ghost before = self.define_enums@;
        let ghost entry = define_enum@;
        self.define_enums.push(define_enum);
        assert(defines_view(self.define_enums@) =~= defines_view(before).push(entry));
    }
}

/// What a read gives back of a write: after `rename_item(c, rust)`, the item `c` is renamed
/// to `rust`, whatever rules came before.
pub proof fn lemma_item_read_after_write(r: RenamerModel, c: Seq<char>, rust: Seq<char>)
    ensures
        (RenamerModel { items: r.items.push((c, rust)), ..r }).item_rename(c) == Some(rust),
{
    assert(r.items.push((c, rust)).drop_last() =~= r.items);
}

/// An exact item rename takes precedence over every regex rule.
pub proof fn lemma_exact_rename_first(r: RenamerModel, name: Seq<char>, target: Seq<char>)
    requires
        rename_lookup(r.items, name) == Some(target),
    ensures
        r.item_rename(name) == Some(target),
{
}

/// A variant rule without a regex applies to unnamed enums only, and a rule with a regex to
/// named enums only.
pub proof fn lemma_enum_rule_scope(pattern: Option<Seq<char>>, enum_name: Option<Seq<char>>)
    ensures
        pattern is None ==> (enum_rule_applies(pattern, enum_name) <==> enum_name is None),
        pattern is Some ==> (enum_rule_applies(pattern, enum_name) ==> enum_name is Some),
        pattern matches Some(p) ==> (enum_name matches Some(n) ==> (enum_rule_applies(
            pattern,
            enum_name,
        ) <==> regex_matches(p, n))),
{
}

/// Without an exact rename, the first regex rule that matches an item renames it with its
/// renamer, whatever later rules say.
pub proof fn lemma_first_regex_rule_decides(r: RenamerModel, name: Seq<char>, i: int)
    requires
        rename_lookup(r.items, name) is None,
        0 <= i < r.many.len(),
        regex_matches(r.many[i].0, name),
        forall|j: int| 0 <= j < i ==> !regex_matches(#[trigger] r.many[j].0, name),
    ensures
        r.item_rename(name) == Some(r.many[i].1.renamed(name)),
{
    lemma_many_first(r.many, name, i);
}

proof fn lemma_many_first(many: Seq<(Seq<char>, IdentRenamerModel)>, name: Seq<char>, i: int)
    requires
        0 <= i < many.len(),
        regex_matches(many[i].0, name),
        forall|j: int| 0 <= j < i ==> !regex_matches(#[trigger] many[j].0, name),
    ensures
        many_rename(many, name) == Some(many[i].1.renamed(name)),
    decreases i,
{
    if i > 0 {
        let rest = many.drop_first();
        assert(!regex_matches(many[0].0, name));
        assert forall|j: int| 0 <= j < i - 1 implies !regex_matches(#[trigger] rest[j].0, name) by {
            assert(rest[j] == many[j + 1]);
        }
        assert(rest[i - 1] == many[i]);
        lemma_many_first(rest, name, i - 1);
    }
}

/// An item that no rule names keeps its name: no exact rename and no matching regex rule
/// give no rename.
pub proof fn lemma_unmatched_item_kept(r: RenamerModel, name: Seq<char>)
    requires
        rename_lookup(r.items, name) is None,
        forall|j: int| 0 <= j < r.many.len() ==> !regex_matches(#[trigger] r.many[j].0, name),
    ensures
        r.item_rename(name) is None,
{
    lemma_many_none(r.many, name);
}

proof fn lemma_many_none(many: Seq<(Seq<char>, IdentRenamerModel)>, name: Seq<char>)
    requires
        forall|j: int| 0 <= j < many.len() ==> !regex_matches(#[trigger] many[j].0, name),
    ensures
        many_rename(many, name) is None,
    decreases many.len(),
{
    if many.len() > 0 {
        let rest = many.drop_first();
        assert(!regex_matches(many[0].0, name));
        assert forall|j: int| 0 <= j < rest.len() implies !regex_matches(#[trigger] rest[j].0, name) by {
            assert(rest[j] == many[j + 1]);
        }
        lemma_many_none(rest, name);
    }
}

/// The first enum rule that applies to an enum renames its variants with its renamer,
/// whatever later rules say; with no rule applying, a variant keeps its name.
pub proof fn lemma_first_enum_rule_decides(
    enums: Seq<(Option<Seq<char>>, IdentRenamerModel)>,
    enum_name: Option<Seq<char>>,
    variant: Seq<char>,
    i: int,
)
    requires
        0 <= i <= enums.len(),
        i < enums.len() ==> enum_rule_applies(enums[i].0, enum_name),
        forall|j: int| 0 <= j < i ==> !enum_rule_applies(#[trigger] enums[j].0, enum_name),
    ensures
        i < enums.len() ==> enum_rename(enums, enum_name, variant) == Some(
            enums[i].1.renamed(variant),
        ),
        i == enums.len() ==> enum_rename(enums, enum_name, variant) is None,
    decreases i,
{
    if i > 0 {
        let rest = enums.drop_first();
        assert(!enum_rule_applies(enums[0].0, enum_name));
        assert forall|j: int| 0 <= j < i - 1 implies !enum_rule_applies(
            #[trigger] rest[j].0,
            enum_name,
        ) by {
            assert(rest[j] == enums[j + 1]);
        }
        if i < enums.len() {
            assert(rest[i - 1] == enums[i]);
        }
        lemma_first_enum_rule_decides(rest, enum_name, variant, i - 1);
    }
}

/// Rendering all collectors empties them, so rendering again gives nothing.
pub proof fn lemma_render_all_drains(defines: Seq<DefineEnumModel>)
    ensures
        rendered_all(defines.map_values(|d: DefineEnumModel| d.drained())) == Seq::<char>::empty(),
    decreases defines.len(),
{
    let drained = defines.map_values(|d: DefineEnumModel| d.drained());
    if defines.len() > 0 {
        lemma_render_all_drains(defines.drop_last());
        assert(drained.drop_last() =~= defines.drop_last().map_values(
            |d: DefineEnumModel| d.drained(),
        ));
        assert(drained.last() == defines.last().drained());
    }
}

/// A constant is recorded only by the collectors that accept it; the others stay unchanged.
pub proof fn lemma_offer_only_accepting(d: DefineEnumModel, name: Seq<char>, value: i64)
    ensures
        !d.accepts(name, value) ==> offered(d, name, value) == d,
        d.accepts(name, value) ==> offered(d, name, value).values == d.values.push(
            d.entry(name, value),
        ),
{
}

} // verus!
