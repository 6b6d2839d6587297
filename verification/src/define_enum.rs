//! Collection of integer `#define` constants into a Rust enum, and its rendering as source text.

use vstd::prelude::*;
use crate::ident::{IdentRenamer, IdentRenamerModel, regexes_view};
use crate::pattern::{Regex, regex_matches};
use crate::text::{chars_of, chars_before, chars_less};

verus! {

/// Sort order for define-backed enum variants.
#[derive(Clone, Copy, Debug, PartialEq, Eq, Structural)]
pub enum DefineEnumSort {
    /// Sort by the rendered Rust variant name.
    Name,
    /// Sort by the integer macro value, smallest first.
    Value,
    /// Sort by the integer macro value, largest first.
    ValueDesc,
}

/// One collected constant, as plain values.
pub struct ValueModel {
    pub const_name: Seq<char>,
    pub variant_name: Seq<char>,
    pub value: i64,
}

/// One collected constant: its C name, its Rust variant name and its value.
#[derive(Debug)]
pub struct DefineEnumValue {
    const_name: String,
    variant_name: String,
    value: i64,
}

impl View for DefineEnumValue {
    type V = ValueModel;

    closed spec fn view(&self) -> ValueModel {
        ValueModel {
            const_name: self.const_name@,
            variant_name: self.variant_name@,
            value: self.value,
        }
    }
}

impl Clone for DefineEnumValue {
    fn clone(&self) -> (r: Self)
        ensures
            r@ == self@,
    {
        DefineEnumValue {
            const_name: self.const_name.clone(),
            variant_name: self.variant_name.clone(),
            value: self.value,
        }
    }
}

/// The views of collected constants.
pub open spec fn values_view(values: Seq<DefineEnumValue>) -> Seq<ValueModel> {
    values.map_values(|v: DefineEnumValue| v@)
}

/// The views of a list of strings.
pub open spec fn strings_view(strings: Seq<String>) -> Seq<Seq<char>> {
    strings.map_values(|s: String| s@)
}

/// Whether `a` is placed strictly before `b` under `sort`.
pub open spec fn goes_before(sort: DefineEnumSort, a: ValueModel, b: ValueModel) -> bool {
    match sort {
        DefineEnumSort::Name => chars_less(a.variant_name, b.variant_name),
        DefineEnumSort::Value => a.value < b.value,
        DefineEnumSort::ValueDesc => a.value > b.value,
    }
}

/// `sorted` with `x` inserted after every element that `x` does not go before.
pub open spec fn insert_sorted(sorted: Seq<ValueModel>, x: ValueModel, sort: DefineEnumSort) -> Seq<
    ValueModel,
>
    decreases sorted.len(),
{
    if sorted.len() == 0 {
        seq![x]
    } else if goes_before(sort, x, sorted[0]) {
        seq![x] + sorted
    } else {
        seq![sorted[0]] + insert_sorted(sorted.drop_first(), x, sort)
    }
}

/// The stable sort of `values` under `sort`: each value inserted in turn, in collection order.
pub open spec fn sort_values(values: Seq<ValueModel>, sort: DefineEnumSort) -> Seq<ValueModel>
    decreases values.len(),
{
    if values.len() == 0 {
        values
    } else {
        insert_sorted(sort_values(values.drop_last(), sort), values.last(), sort)
    }
}

/// The values in render order.
pub open spec fn ordered_values(values: Seq<ValueModel>, sort: Option<DefineEnumSort>) -> Seq<
    ValueModel,
> {
    match sort {
        Some(s) => sort_values(values, s),
        None => values,
    }
}

/// The smallest value, or `i64::MAX` for none.
pub open spec fn values_min(values: Seq<ValueModel>) -> i64
    decreases values.len(),
{
    if values.len() == 0 {
        i64::MAX
    } else {
        let m = values_min(values.drop_last());
        if values.last().value < m {
            values.last().value
        } else {
            m
        }
    }
}

/// The largest value, or `i64::MIN` for none.
pub open spec fn values_max(values: Seq<ValueModel>) -> i64
    decreases values.len(),
{
    if values.len() == 0 {
        i64::MIN
    } else {
        let m = values_max(values.drop_last());
        if values.last().value > m {
            values.last().value
        } else {
            m
        }
    }
}

/// The smallest integer type that holds every value: `i32` or `i64` when one is negative,
/// `u32` or `u64` otherwise.
pub open spec fn repr_for(values: Seq<ValueModel>) -> Seq<char> {
    let lo = values_min(values);
    let hi = values_max(values);
    if lo < 0 {
        if lo < i32::MIN || hi > i32::MAX {
            "i64"@
        } else {
            "i32"@
        }
    } else if hi > u32::MAX {
        "u64"@
    } else {
        "u32"@
    }
}

/// `items` joined with `sep` between each two.
pub open spec fn join(items: Seq<Seq<char>>, sep: Seq<char>) -> Seq<char>
    decreases items.len(),
{
    if items.len() == 0 {
        Seq::empty()
    } else if items.len() == 1 {
        items[0]
    } else {
        join(items.drop_last(), sep) + sep + items.last()
    }
}

/// The derive attribute line: the given derives, or the default ones; nothing when empty.
pub open spec fn derive_line(derives: Option<Seq<Seq<char>>>) -> Seq<char> {
    let joined = match derives {
        Some(d) => join(d, ", "@),
        None => "Debug, Clone, Copy, Hash, PartialEq, Eq"@,
    };
    if joined.len() == 0 {
        Seq::empty()
    } else {
        "#[derive("@ + joined + ")]\n"@
    }
}

/// One variant line: `    Variant = (CONST as repr),`.
pub open spec fn variant_line(v: ValueModel, repr: Seq<char>) -> Seq<char> {
    "    "@ + v.variant_name + " = ("@ + v.const_name + " as "@ + repr + "),\n"@
}

/// The variant lines of `values`, in order.
pub open spec fn variant_lines(values: Seq<ValueModel>, repr: Seq<char>) -> Seq<char>
    decreases values.len(),
{
    if values.len() == 0 {
        Seq::empty()
    } else {
        variant_lines(values.drop_last(), repr) + variant_line(values.last(), repr)
    }
}

/// What a [`DefineEnum`] holds, as plain values.
pub struct DefineEnumModel {
    pub enum_name: Seq<char>,
    pub repr: Option<Seq<char>>,
    pub matcher: Seq<char>,
    pub exclude: Seq<Seq<char>>,
    pub sort: Option<DefineEnumSort>,
    pub derives: Option<Seq<Seq<char>>>,
    pub min: Option<i64>,
    pub max: Option<i64>,
    pub renamer: IdentRenamerModel,
    pub values: Seq<ValueModel>,
}

impl DefineEnumModel {
    /// The name matches the matcher and no exclusion.
    pub open spec fn name_selected(self, name: Seq<char>) -> bool {
        &&& regex_matches(self.matcher, name)
        &&& forall|i: int| 0 <= i < self.exclude.len() ==> !regex_matches(self.exclude[i], name)
    }

    /// The constant is collected: its name is selected and its value lies within the bounds.
    pub open spec fn accepts(self, name: Seq<char>, value: i64) -> bool {
        &&& self.name_selected(name)
        &&& (self.min matches Some(lo) ==> value >= lo)
        &&& (self.max matches Some(hi) ==> value <= hi)
    }

    /// The entry recorded for a collected constant.
    pub open spec fn entry(self, name: Seq<char>, value: i64) -> ValueModel {
        ValueModel { const_name: name, variant_name: self.renamer.renamed(name), value }
    }

    /// The same collector with no collected values.
    pub open spec fn drained(self) -> DefineEnumModel {
        DefineEnumModel { values: Seq::empty(), ..self }
    }

    /// The rendered enum: empty when nothing was collected, else the `repr` and derive
    /// attributes, the enum header and one line per value in render order.
    pub open spec fn rendered(self) -> Seq<char> {
        if self.values.len() == 0 {
            Seq::empty()
        } else {
            let ordered = ordered_values(self.values, self.sort);
            let repr = match self.repr {
                Some(r) => r,
                None => repr_for(ordered),
            };
            "\n#[repr("@ + repr + ")]\n"@ + derive_line(self.derives) + "pub enum "@
                + self.enum_name + " {\n"@ + variant_lines(ordered, repr) + "}\n"@
        }
    }
}

/// Collects matching integer `#define` constants and renders a Rust enum for them.
///
/// Bindgen still emits the matched constants as usual. The rendered enum uses those
/// constants as discriminants, e.g. `Foo = (ERR_FOO as u32)`.
#[derive(Debug)]
pub struct DefineEnum {
    enum_name: String,
    repr: Option<String>,
    matcher: Regex,
    exclude: Vec<Regex>,
    sort: Option<DefineEnumSort>,
    derives: Option<Vec<String>>,
    min: Option<i64>,
    max: Option<i64>,
    variant_renamer: IdentRenamer,
    values: Vec<DefineEnumValue>,
}

impl View for DefineEnum {
    type V = DefineEnumModel;

    closed spec fn view(&self) -> DefineEnumModel {
        DefineEnumModel {
            enum_name: self.enum_name@,
            repr: match self.repr {
                Some(r) => Some(r@),
                None => None,
            },
            matcher: self.matcher@,
            exclude: regexes_view(self.exclude@),
            sort: self.sort,
            derives: match self.derives {
                Some(d) => Some(strings_view(d@)),
                None => None,
            },
            min: self.min,
            max: self.max,
            renamer: self.variant_renamer@,
            values: values_view(self.values@),
        }
    }
}


/// Whether `a` is placed strictly before `b` under `sort`.
fn value_before(sort: DefineEnumSort, a: &DefineEnumValue, b: &DefineEnumValue) -> (r: bool)
    ensures
        r == goes_before(sort, a@, b@),
{
    match sort {
        DefineEnumSort::Name => {
            let an = chars_of(a.variant_name.as_str());
            let bn = chars_of(b.variant_name.as_str());
            chars_before(&an, &bn)
        },
        DefineEnumSort::Value => a.value < b.value,
        DefineEnumSort::ValueDesc => a.value > b.value,
    }
}

/// Inserting at the first position whose element `x` goes before gives `insert_sorted`.
proof fn lemma_insert_at(s: Seq<ValueModel>, x: ValueModel, sort: DefineEnumSort, j: int)
    requires
        0 <= j <= s.len(),
        forall|k: int| 0 <= k < j ==> !goes_before(sort, x, #[trigger] s[k]),
        j == s.len() || goes_before(sort, x, s[j]),
    ensures
        insert_sorted(s, x, sort) == s.insert(j, x),
    decreases s.len(),
{
    if s.len() == 0 {
        assert(s.insert(j, x) =~= seq![x]);
    } else if j == 0 {
        assert(s.insert(j, x) =~= seq![x] + s);
    } else {
        let t = s.drop_first();
        assert forall|k: int| 0 <= k < j - 1 implies !goes_before(sort, x, #[trigger] t[k]) by {
            assert(t[k] == s[k + 1]);
        }
        lemma_insert_at(t, x, sort, j - 1);
        assert(s.insert(j, x) =~= seq![s[0]] + t.insert(j - 1, x));
    }
}

/// `values` in the stable order that `sort` gives.
fn sort_entries(values: Vec<DefineEnumValue>, sort: DefineEnumSort) -> (out: Vec<DefineEnumValue>)
    ensures
        values_view(out@) == sort_values(values_view(values@), sort),
{
    let ghost orig = values_view(values@);
    let mut rest = values;
    let mut out: Vec<DefineEnumValue> = Vec::new();
    let mut i: usize = 0;
    let n = rest.len();
    while rest.len() > 0
        invariant
            n == orig.len(),
            i + rest.len() == n,
            values_view(rest@) == orig.skip(i as int),
            values_view(out@) == sort_values(orig.take(i as int), sort),
        decreases rest.len(),
    {
        let ghost old_rest = rest@;
        let x = rest.remove(0);
        assert(values_view(old_rest)[0] == orig.skip(i as int)[0]);
        assert(x@ == orig[i as int]);
        assert forall|k: int| 0 <= k < values_view(rest@).len() implies values_view(rest@)[k]
            == orig.skip(i + 1)[k] by {
            assert(values_view(old_rest)[k + 1] == orig.skip(i as int)[k + 1]);
        }
        assert(values_view(rest@) =~= orig.skip(i + 1));
        let mut j: usize = 0;
        while j < out.len()
            invariant
                j <= out.len(),
                forall|k: int| 0 <= k < j ==> !goes_before(sort, x@, #[trigger] values_view(out@)[k]),
            ensures
                j <= out.len(),
                forall|k: int| 0 <= k < j ==> !goes_before(sort, x@, #[trigger] values_view(out@)[k]),
                j == out.len() || goes_before(sort, x@, values_view(out@)[j as int]),
            decreases out.len() - j,
        {
            if value_before(sort, &x, &out[j]) {
                break;
            }
            j = j + 1;
        }
        proof {
            lemma_insert_at(values_view(out@), x@, sort, j as int);
            assert(orig.take(i + 1).drop_last() =~= orig.take(i as int));
        }
        let ghost before_insert = out@;
        out.insert(j, x);
        assert(values_view(out@) =~= values_view(before_insert).insert(j as int, x@));
        i = i + 1;
    }
    assert(orig.take(n as int) =~= orig);
    out
}

/// The integer type that `repr_for` names for `values`.
fn repr_for_values(values: &Vec<DefineEnumValue>) -> (r: &'static str)
    ensures
        r@ == repr_for(values_view(values@)),
{
    let mut lo: i64 = i64::MAX;
    let mut hi: i64 = i64::MIN;
    let mut i: usize = 0;
    while i < values.len()
        invariant
            i <= values.len(),
            lo == values_min(values_view(values@).take(i as int)),
            hi == values_max(values_view(values@).take(i as int)),
        decreases values.len() - i,
    {
        assert(values_view(values@).take(i + 1).drop_last() =~= values_view(values@).take(i as int));
        let v = values[i].value;
        if v < lo {
            lo = v;
        }
        if v > hi {
            hi = v;
        }
        i = i + 1;
    }
    assert(values_view(values@).take(values.len() as int) =~= values_view(values@));
    if lo < 0 {
        if lo < (i32::MIN as i64) || hi > (i32::MAX as i64) {
            "i64"
        } else {
            "i32"
        }
    } else if hi > (u32::MAX as i64) {
        "u64"
    } else {
        "u32"
    }
}

/// `items` joined with `sep`.
pub(crate) fn join_strings(items: &Vec<String>, sep: &str) -> (out: String)
    ensures
        out@ == join(strings_view(items@), sep@),
{
    let mut out = String::new();
    let mut i: usize = 0;
    while i < items.len()
        invariant
            i <= items.len(),
            out@ == join(strings_view(items@).take(i as int), sep@),
        decreases items.len() - i,
    {
        let ghost prefix = strings_view(items@).take(i + 1);
        assert(prefix.drop_last() =~= strings_view(items@).take(i as int));
        if i > 0 {
            out.append(sep);
        }
        out.append(items[i].as_str());
        proof {
            if i == 0 {
                assert(out@ =~= prefix[0]);
            }
        }
        i = i + 1;
    }
    assert(strings_view(items@).take(items.len() as int) =~= strings_view(items@));
    out
}

/// The derive attribute line for `derives`.
fn render_derive_line(derives: &Option<Vec<String>>) -> (out: String)
    ensures
        out@ == derive_line(match derives {
            Some(d) => Some(strings_view(d@)),
            None => None,
        }),
{
    let joined = match derives {
        Some(d) => join_strings(d, ", "),
        None => "Debug, Clone, Copy, Hash, PartialEq, Eq".to_owned(),
    };
    if joined.as_str().is_empty() {
        String::new()
    } else {
        let mut out = "#[derive(".to_owned();
        out.append(joined.as_str());
        out.append(")]\n");
        out
    }
}

impl DefineEnum {
    /// Creates a collector for the enum `enum_name`, collecting the constants whose names
    /// `matcher` matches and naming their variants with `variant_renamer`.
    pub fn new(enum_name: &str, matcher: Regex, variant_renamer: IdentRenamer) -> (d: DefineEnum)
        ensures
            d@ == (DefineEnumModel {
                enum_name: enum_name@,
                repr: None,
                matcher: matcher@,
                exclude: Seq::empty(),
                sort: None,
                derives: None,
                min: None,
                max: None,
                renamer: variant_renamer@,
                values: Seq::empty(),
            }),
    {
        let d = DefineEnum {
            enum_name: enum_name.to_owned(),
            repr: None,
            matcher,
            exclude: Vec::new(),
            sort: None,
            derives: None,
            min: None,
            max: None,
            variant_renamer,
            values: Vec::new(),
        };
        assert(regexes_view(d.exclude@) =~= Seq::empty());
        assert(values_view(d.values@) =~= Seq::empty());
        d
    }

    /// Sets an explicit `repr` for the generated enum.
    pub fn with_repr(self, repr: &str) -> (d: DefineEnum)
        ensures
            d@ == (DefineEnumModel { repr: Some(repr@), ..self@ }),
    {
        DefineEnum { repr: Some(repr.to_owned()), ..self }
    }

    /// Excludes the macro names that `matcher` matches.
    pub fn exclude(self, matcher: Regex) -> (d: DefineEnum)
        ensures
            d@ == (DefineEnumModel { exclude: self@.exclude.push(matcher@), ..self@ }),
    {
        let mut d = self;
        d.exclude.push(matcher);
        assert(regexes_view(d.exclude@) =~= self@.exclude.push(matcher@));
        d
    }

    /// Sorts the generated variants.
    pub fn sort(self, sort: DefineEnumSort) -> (d: DefineEnum)
        ensures
            d@ == (DefineEnumModel { sort: Some(sort), ..self@ }),
    {
        DefineEnum { sort: Some(sort), ..self }
    }

    /// Sets the derives of the generated enum.
    pub fn derives(self, derives: Vec<String>) -> (d: DefineEnum)
        ensures
            d@ == (DefineEnumModel { derives: Some(strings_view(derives@)), ..self@ }),
    {
        DefineEnum { derives: Some(derives), ..self }
    }

    /// Includes only values greater than or equal to `min`.
    pub fn min(self, min: i64) -> (d: DefineEnum)
        ensures
            d@ == (DefineEnumModel { min: Some(min), ..self@ }),
    {
        DefineEnum { min: Some(min), ..self }
    }

    /// Includes only values less than or equal to `max`.
    pub fn max(self, max: i64) -> (d: DefineEnum)
        ensures
            d@ == (DefineEnumModel { max: Some(max), ..self@ }),
    {
        DefineEnum { max: Some(max), ..self }
    }

    /// Whether this enum includes the macro named `name`: the matcher matches and no
    /// exclusion does.
    pub fn is_match(&self, name: &str) -> (r: bool)
        ensures
            r == self@.name_selected(name@),
    {
        if !self.matcher.is_match(name) {
            return false;
        }
        let mut i: usize = 0;
        while i < self.exclude.len()
            invariant
                i <= self.exclude.len(),
                forall|k: int| 0 <= k < i ==> !regex_matches(self@.exclude[k], name@),
            decreases self.exclude.len() - i,
        {
            if self.exclude[i].is_match(name) {
                assert(regex_matches(self@.exclude[i as int], name@));
                return false;
            }
            i = i + 1;
        }
        true
    }

    /// Records the constant `name` with `value`, naming its variant with the renamer.
    fn record_macro(&mut self, name: &str, value: i64)
        ensures
            final(self)@ == (DefineEnumModel {
                values: old(self)@.values.push(old(self)@.entry(name@, value)),
                ..old(self)@
            }),
    {
        let entry = DefineEnumValue {
            const_name: name.to_owned(),
            variant_name: self.variant_renamer.apply(name),
            value,
        };
        self.values.push(entry);
        assert(values_view(self.values@) =~= values_view(old(self).values@).push(entry@));
    }

    /// Records the constant `name` with `value` when this enum accepts it: its name is
    /// selected and its value lies within the bounds. Leaves the collector unchanged otherwise.
    pub fn record_matching_macro(&mut self, name: &str, value: i64)
        ensures
            old(self)@.accepts(name@, value) ==> final(self)@ == (DefineEnumModel {
                values: old(self)@.values.push(old(self)@.entry(name@, value)),
                ..old(self)@
            }),
            !old(self)@.accepts(name@, value) ==> final(self)@ == old(self)@,
    {
        let above = match self.min {
            Some(lo) => value >= lo,
            None => true,
        };
        let below = match self.max {
            Some(hi) => value <= hi,
            None => true,
        };
        if self.is_match(name) && above && below {
            self.record_macro(name, value);
        }
    }

    /// Renders the collected constants as a Rust enum, and empties the collection.
    ///
    /// Returns an empty string if no matching constants were collected.
    pub fn render(&mut self) -> (out: String)
        ensures
            out@ == old(self)@.rendered(),
            final(self)@ == old(self)@.drained(),
    {
        let mut values: Vec<DefineEnumValue> = Vec::new();
        std::mem::swap(&mut values, &mut self.values);
        assert(values_view(self.values@) =~= Seq::empty());
        if values.len() == 0 {
            return String::new();
        }
        let ordered = match self.sort {
            Some(s) => sort_entries(values, s),
            None => values,
        };
        let repr: String = match &self.repr {
            Some(r) => r.clone(),
            None => repr_for_values(&ordered).to_owned(),
        };
        let ghost head = "\n#[repr("@ + repr@ + ")]\n"@ + derive_line(self@.derives) + "pub enum "@
            + self.enum_name@ + " {\n"@;
        let mut out = "\n#[repr(".to_owned();
        out.append(repr.as_str());
        out.append(")]\n");
        let derive = render_derive_line(&self.derives);
        out.append(derive.as_str());
        out.append("pub enum ");
        out.append(self.enum_name.as_str());
        out.append(" {\n");
        assert(out@ =~= head);
        let mut i: usize = 0;
        while i < ordered.len()
            invariant
                i <= ordered.len(),
                out@ == head + variant_lines(values_view(ordered@).take(i as int), repr@),
            decreases ordered.len() - i,
        {
            let ghost prefix = values_view(ordered@).take(i + 1);
            assert(prefix.drop_last() =~= values_view(ordered@).take(i as int));
            out.append("    ");
            out.append(ordered[i].variant_name.as_str());
            out.append(" = (");
            out.append(ordered[i].const_name.as_str());
            out.append(" as ");
            out.append(repr.as_str());
            out.append("),\n");
            assert(out@ =~= head + variant_lines(prefix, repr@));
            i = i + 1;
        }
        assert(values_view(ordered@).take(ordered.len() as int) =~= values_view(ordered@));
        out.append("}\n");
        out
    }
}

/// Every later value may follow every earlier one: none goes before one placed ahead of it.
pub open spec fn in_order(values: Seq<ValueModel>, sort: DefineEnumSort) -> bool {
    forall|i: int, j: int| 0 <= i < j < values.len() ==> !goes_before(sort, values[j], values[i])
}

/// Lexicographic order is transitive.
pub proof fn lemma_chars_less_transitive(a: Seq<char>, b: Seq<char>, c: Seq<char>)
    requires
        chars_less(a, b),
        chars_less(b, c),
    ensures
        chars_less(a, c),
    decreases a.len(),
{
    if a.len() > 0 && a[0] == b[0] && b[0] == c[0] {
        lemma_chars_less_transitive(a.drop_first(), b.drop_first(), c.drop_first());
    }
}

/// Lexicographic order is asymmetric: no two sequences each come before the other.
pub proof fn lemma_chars_less_asymmetric(a: Seq<char>, b: Seq<char>)
    ensures
        !(chars_less(a, b) && chars_less(b, a)),
    decreases a.len(),
{
    if a.len() > 0 && b.len() > 0 && a[0] == b[0] {
        lemma_chars_less_asymmetric(a.drop_first(), b.drop_first());
    }
}

/// Each sort order is a strict order: asymmetric and transitive.
pub proof fn lemma_goes_before_strict(sort: DefineEnumSort, a: ValueModel, b: ValueModel, c: ValueModel)
    ensures
        !(goes_before(sort, a, b) && goes_before(sort, b, a)),
        goes_before(sort, a, b) && goes_before(sort, b, c) ==> goes_before(sort, a, c),
{
    if sort == DefineEnumSort::Name {
        lemma_chars_less_asymmetric(a.variant_name, b.variant_name);
        if goes_before(sort, a, b) && goes_before(sort, b, c) {
            lemma_chars_less_transitive(a.variant_name, b.variant_name, c.variant_name);
        }
    }
}

proof fn lemma_insert_sorted(s: Seq<ValueModel>, x: ValueModel, sort: DefineEnumSort)
    ensures
        insert_sorted(s, x, sort).to_multiset() == s.to_multiset().insert(x),
        in_order(s, sort) ==> in_order(insert_sorted(s, x, sort), sort),
        forall|k: int| 0 <= k < insert_sorted(s, x, sort).len() ==> #[trigger] insert_sorted(s, x, sort)[k] == x
            || s.contains(insert_sorted(s, x, sort)[k]),
    decreases s.len(),
{
    broadcast use vstd::seq_lib::to_multiset_insert;
    broadcast use vstd::multiset::group_multiset_axioms;
    let r = insert_sorted(s, x, sort);
    if s.len() == 0 {
        assert(s =~= Seq::<ValueModel>::empty());
        assert(r =~= s.insert(0, x));
    } else if goes_before(sort, x, s[0]) {
        assert(r =~= s.insert(0, x));
        if in_order(s, sort) {
            assert forall|i: int, j: int| 0 <= i < j < r.len() implies !goes_before(sort, r[j], r[i]) by {
                if i == 0 {
                    lemma_goes_before_strict(sort, r[j], x, s[0]);
                    if j > 1 {
                        assert(!goes_before(sort, s[j - 1], s[0]));
                    }
                } else {
                    assert(r[i] == s[i - 1] && r[j] == s[j - 1]);
                }
            }
        }
        assert forall|k: int| 0 <= k < r.len() implies #[trigger] r[k] == x || s.contains(r[k]) by {
            if k > 0 {
                assert(r[k] == s[k - 1]);
            }
        }
    } else {
        let rest = s.drop_first();
        let t = insert_sorted(rest, x, sort);
        lemma_insert_sorted(rest, x, sort);
        assert(r =~= t.insert(0, s[0]));
        assert(s =~= rest.insert(0, s[0]));
        assert(t.to_multiset().insert(s[0]) =~= rest.to_multiset().insert(s[0]).insert(x));
        if in_order(s, sort) {
            assert forall|i: int, j: int| 0 <= i < j < rest.len() implies !goes_before(
                sort,
                rest[j],
                rest[i],
            ) by {
                assert(rest[i] == s[i + 1] && rest[j] == s[j + 1]);
            }
            assert forall|i: int, j: int| 0 <= i < j < r.len() implies !goes_before(sort, r[j], r[i]) by {
                if i == 0 {
                    assert(r[j] == t[j - 1]);
                    if t[j - 1] != x {
                        let k = choose|k: int| 0 <= k < rest.len() && rest[k] == t[j - 1];
                        assert(rest[k] == s[k + 1]);
                    }
                } else {
                    assert(r[i] == t[i - 1] && r[j] == t[j - 1]);
                }
            }
        }
        assert forall|k: int| 0 <= k < r.len() implies #[trigger] r[k] == x || s.contains(r[k]) by {
            if k == 0 {
                assert(s[0] == r[0]);
            } else {
                assert(r[k] == t[k - 1]);
                if t[k - 1] != x {
                    let m = choose|m: int| 0 <= m < rest.len() && rest[m] == t[k - 1];
                    assert(s[m + 1] == rest[m]);
                }
            }
        }
    }
}

/// Sorting collected values keeps them all, each as often as before, and puts them in
/// order: no value ends up after one that it goes before.
pub proof fn lemma_sort_values(values: Seq<ValueModel>, sort: DefineEnumSort)
    ensures
        sort_values(values, sort).to_multiset() == values.to_multiset(),
        in_order(sort_values(values, sort), sort),
    decreases values.len(),
{
    broadcast use vstd::seq_lib::to_multiset_build;
    if values.len() > 0 {
        let prev = values.drop_last();
        lemma_sort_values(prev, sort);
        lemma_insert_sorted(sort_values(prev, sort), values.last(), sort);
        assert(values =~= prev.push(values.last()));
    }
}

proof fn lemma_min_max_bound(values: Seq<ValueModel>)
    ensures
        forall|i: int| 0 <= i < values.len() ==> values_min(values) <= #[trigger] values[i].value
            <= values_max(values),
    decreases values.len(),
{
    if values.len() > 0 {
        let prev = values.drop_last();
        lemma_min_max_bound(prev);
        assert forall|i: int| 0 <= i < values.len() implies values_min(values) <= #[trigger] values[i].value
            <= values_max(values) by {
            if i < values.len() - 1 {
                assert(values[i] == prev[i]);
            }
        }
    }
}

/// The integer type chosen for the enum holds every collected value: `u32` only for values
/// in `0..=u32::MAX`, `u64` only for non-negative values, `i32` only for values in the
/// `i32` range.
pub proof fn lemma_repr_holds_values(values: Seq<ValueModel>)
    ensures
        repr_for(values) == "u32"@ ==> forall|i: int|
            0 <= i < values.len() ==> 0 <= #[trigger] values[i].value <= u32::MAX,
        repr_for(values) == "u64"@ ==> forall|i: int|
            0 <= i < values.len() ==> 0 <= #[trigger] values[i].value,
        repr_for(values) == "i32"@ ==> forall|i: int|
            0 <= i < values.len() ==> i32::MIN <= #[trigger] values[i].value <= i32::MAX,
{
    reveal_strlit("u32");
    reveal_strlit("u64");
    reveal_strlit("i32");
    reveal_strlit("i64");
    assert("u32"@[0] != "i32"@[0] && "u32"@[0] != "i64"@[0]);
    assert("u32"@[1] != "u64"@[1]);
    assert("u64"@[0] != "i32"@[0] && "u64"@[0] != "i64"@[0]);
    assert("i32"@[1] != "i64"@[1]);
    lemma_min_max_bound(values);
}

proof fn lemma_min_max_attained(values: Seq<ValueModel>)
    requires
        values.len() > 0,
    ensures
        exists|i: int| 0 <= i < values.len() && #[trigger] values[i].value == values_min(values),
        exists|i: int| 0 <= i < values.len() && #[trigger] values[i].value == values_max(values),
    decreases values.len(),
{
    let prev = values.drop_last();
    let n = values.len() - 1;
    assert(values[n] == values.last());
    if prev.len() == 0 {
        assert(values_min(prev) == i64::MAX && values_max(prev) == i64::MIN);
        assert(values[n].value == values_min(values));
        assert(values[n].value == values_max(values));
    } else {
        lemma_min_max_attained(prev);
        let a = choose|i: int| 0 <= i < prev.len() && #[trigger] prev[i].value == values_min(prev);
        let b = choose|i: int| 0 <= i < prev.len() && #[trigger] prev[i].value == values_max(prev);
        assert(values[a] == prev[a]);
        assert(values[b] == prev[b]);
        if values.last().value < values_min(prev) {
            assert(values[n].value == values_min(values));
        } else {
            assert(values[a].value == values_min(values));
        }
        if values.last().value > values_max(prev) {
            assert(values[n].value == values_max(values));
        } else {
            assert(values[b].value == values_max(values));
        }
    }
}

/// Without an explicit repr the enum gets the smallest integer type that holds every value:
/// `u32` whenever all values lie in `0..=u32::MAX`, `u64` when none is negative and one is
/// above `u32::MAX`, `i32` whenever one is negative and all lie in the `i32` range, and
/// `i64` only when one is negative and one lies outside the `i32` range.
pub proof fn lemma_repr_smallest(values: Seq<ValueModel>)
    ensures
        (forall|i: int| 0 <= i < values.len() ==> 0 <= #[trigger] values[i].value <= u32::MAX)
            ==> repr_for(values) == "u32"@,
        (forall|i: int| 0 <= i < values.len() ==> 0 <= #[trigger] values[i].value) && (exists|
            i: int,
        | 0 <= i < values.len() && #[trigger] values[i].value > u32::MAX) ==> repr_for(values)
            == "u64"@,
        (exists|i: int| 0 <= i < values.len() && #[trigger] values[i].value < 0) && (forall|
            i: int,
        | 0 <= i < values.len() ==> i32::MIN <= #[trigger] values[i].value <= i32::MAX)
            ==> repr_for(values) == "i32"@,
        (exists|i: int| 0 <= i < values.len() && #[trigger] values[i].value < 0) && (exists|
            i: int,
        | 0 <= i < values.len() && (#[trigger] values[i].value < i32::MIN || values[i].value
            > i32::MAX)) ==> repr_for(values) == "i64"@,
{
    reveal_strlit("u32");
    reveal_strlit("u64");
    reveal_strlit("i32");
    reveal_strlit("i64");
    assert("u32"@[0] != "i32"@[0] && "u32"@[0] != "i64"@[0]);
    assert("u32"@[1] != "u64"@[1]);
    assert("u64"@[0] != "i32"@[0] && "u64"@[0] != "i64"@[0]);
    assert("i32"@[1] != "i64"@[1]);
    lemma_min_max_bound(values);
    if values.len() > 0 {
        lemma_min_max_attained(values);
        let a = choose|i: int| 0 <= i < values.len() && #[trigger] values[i].value == values_min(values);
        let b = choose|i: int| 0 <= i < values.len() && #[trigger] values[i].value == values_max(values);
        assert(values_min(values) == values[a].value);
        assert(values_max(values) == values[b].value);
    }
}

/// A name that any exclusion matches is never selected, and its constant is never collected,
/// whatever its value.
pub proof fn lemma_exclusion_rejects(d: DefineEnumModel, i: int, name: Seq<char>, value: i64)
    requires
        0 <= i < d.exclude.len(),
        regex_matches(d.exclude[i], name),
    ensures
        !d.name_selected(name),
        !d.accepts(name, value),
{
}

/// A name that the matcher does not match is never selected, and its constant is never
/// collected.
pub proof fn lemma_unmatched_rejects(d: DefineEnumModel, name: Seq<char>, value: i64)
    requires
        !regex_matches(d.matcher, name),
    ensures
        !d.name_selected(name),
        !d.accepts(name, value),
{
}

/// Rendering empties the collection, so a second rendering gives nothing.
pub proof fn lemma_render_drains(d: DefineEnumModel)
    ensures
        d.drained().rendered() == Seq::<char>::empty(),
        d.drained().drained() == d.drained(),
{
}

/// A constant whose value lies outside the bounds is not collected, whatever its name.
pub proof fn lemma_bounds_exclude(d: DefineEnumModel, name: Seq<char>, value: i64)
    requires
        (d.min matches Some(lo) && value < lo) || (d.max matches Some(hi) && value > hi),
    ensures
        !d.accepts(name, value),
{
}

/// Whether two values have the same sort key: the variant name, or the value.
pub open spec fn same_key(sort: DefineEnumSort, a: ValueModel, b: ValueModel) -> bool {
    match sort {
        DefineEnumSort::Name => a.variant_name == b.variant_name,
        _ => a.value == b.value,
    }
}

/// The values with the same sort key as `x`.
pub open spec fn key_of(sort: DefineEnumSort, x: ValueModel) -> spec_fn(ValueModel) -> bool {
    |e: ValueModel| same_key(sort, e, x)
}

/// Lexicographic order is total: of two different sequences, one comes first.
proof fn lemma_chars_less_total(a: Seq<char>, b: Seq<char>)
    ensures
        a == b || chars_less(a, b) || chars_less(b, a),
    decreases a.len(),
{
    if a.len() > 0 && b.len() > 0 {
        if a[0] == b[0] {
            lemma_chars_less_total(a.drop_first(), b.drop_first());
            if a.drop_first() == b.drop_first() {
                assert(a =~= seq![a[0]] + a.drop_first());
                assert(b =~= seq![b[0]] + b.drop_first());
            }
        } else {
        }
    } else if a.len() == 0 && b.len() == 0 {
        assert(a =~= b);
    }
}

/// The order depends on the sort key alone, and values with different keys are ordered.
proof fn lemma_key_order(sort: DefineEnumSort, a: ValueModel, b: ValueModel, c: ValueModel)
    ensures
        same_key(sort, a, b) ==> (goes_before(sort, a, c) == goes_before(sort, b, c)),
        same_key(sort, a, b) ==> !goes_before(sort, a, b),
        !same_key(sort, a, b) ==> goes_before(sort, a, b) || goes_before(sort, b, a),
{
    if sort == DefineEnumSort::Name {
        lemma_chars_less_total(a.variant_name, b.variant_name);
        lemma_chars_less_asymmetric(a.variant_name, a.variant_name);
    }
}

proof fn lemma_filter_single(x: ValueModel, p: spec_fn(ValueModel) -> bool)
    ensures
        seq![x].filter(p) == (if p(x) {
            seq![x]
        } else {
            Seq::<ValueModel>::empty()
        }),
{
    reveal_with_fuel(Seq::filter, 2);
    assert(seq![x].drop_last() =~= Seq::<ValueModel>::empty());
}

proof fn lemma_insert_sorted_filter(
    s: Seq<ValueModel>,
    y: ValueModel,
    sort: DefineEnumSort,
    x: ValueModel,
)
    requires
        in_order(s, sort),
    ensures
        insert_sorted(s, y, sort).filter(key_of(sort, x)) == if same_key(sort, y, x) {
            s.filter(key_of(sort, x)).push(y)
        } else {
            s.filter(key_of(sort, x))
        },
    decreases s.len(),
{
    broadcast use Seq::filter_distributes_over_add;
    let p = key_of(sort, x);
    lemma_filter_single(y, p);
    if s.len() == 0 {
        assert(s.filter(p) =~= Seq::<ValueModel>::empty()) by {
            reveal(Seq::filter);
        }
    } else if goes_before(sort, y, s[0]) {
        if same_key(sort, y, x) {
            assert forall|k: int| 0 <= k < s.len() implies !p(#[trigger] s[k]) by {
                lemma_key_order(sort, y, x, s[0]);
                lemma_key_order(sort, s[k], x, s[0]);
                lemma_key_order(sort, s[k], y, s[0]);
                if k > 0 {
                    assert(!goes_before(sort, s[k], s[0]));
                }
                lemma_key_order(sort, s[k], s[k], s[k]);
                lemma_goes_before_strict(sort, s[k], s[k], s[k]);
            }
            assert(s.filter(p).len() == 0) by {
                s.lemma_filter_len(p);
                if s.filter(p).len() > 0 {
                    s.lemma_filter_pred(p, 0);
                    let k = choose|k: int| 0 <= k < s.len() && s[k] == s.filter(p)[0];
                    s.lemma_filter_contains_rev(p, s.filter(p)[0]);
                }
            }
            assert(s.filter(p) =~= Seq::<ValueModel>::empty());
        }
        assert(seq![y] + s =~= insert_sorted(s, y, sort));
    } else {
        let rest = s.drop_first();
        assert forall|i: int, j: int| 0 <= i < j < rest.len() implies !goes_before(
            sort,
            rest[j],
            rest[i],
        ) by {
            assert(rest[i] == s[i + 1] && rest[j] == s[j + 1]);
        }
        lemma_insert_sorted_filter(rest, y, sort, x);
        lemma_filter_single(s[0], p);
        assert(s =~= seq![s[0]] + rest);
        assert(insert_sorted(s, y, sort) == seq![s[0]] + insert_sorted(rest, y, sort));
        if same_key(sort, y, x) {
            assert(seq![s[0]].filter(p) + rest.filter(p).push(y) =~= (seq![s[0]].filter(p)
                + rest.filter(p)).push(y));
        }
    }
}

/// The sort is stable: the values that share a sort key keep their collection order.
pub proof fn lemma_sort_stable(values: Seq<ValueModel>, sort: DefineEnumSort, x: ValueModel)
    ensures
        sort_values(values, sort).filter(key_of(sort, x)) == values.filter(key_of(sort, x)),
    decreases values.len(),
{
    if values.len() > 0 {
        let prev = values.drop_last();
        lemma_sort_stable(prev, sort, x);
        lemma_sort_values(prev, sort);
        lemma_insert_sorted_filter(sort_values(prev, sort), values.last(), sort, x);
        reveal(Seq::filter);
    }
}

} // verus!
