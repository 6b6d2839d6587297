//! The identifier rename pipeline: regex removals, then an explicit rename or a case conversion.

use vstd::prelude::*;
use crate::case::{Case, convert_to_case, case_converted};
use crate::pattern::{Regex, regex_removed};
use crate::text::str_equal;

verus! {

/// `text` after removing the matches of each pattern in turn, first pattern first.
pub open spec fn removed_all(patterns: Seq<Seq<char>>, text: Seq<char>) -> Seq<char>
    decreases patterns.len(),
{
    if patterns.len() == 0 {
        text
    } else {
        regex_removed(patterns.last(), removed_all(patterns.drop_last(), text))
    }
}

/// The target of the last entry of `renames` whose source is `key`, if any.
pub open spec fn rename_lookup(renames: Seq<(Seq<char>, Seq<char>)>, key: Seq<char>) -> Option<
    Seq<char>,
>
    decreases renames.len(),
{
    if renames.len() == 0 {
        None
    } else if renames.last().0 == key {
        Some(renames.last().1)
    } else {
        rename_lookup(renames.drop_last(), key)
    }
}

/// The view of a list of string pairs.
pub open spec fn pairs_view(pairs: Seq<(String, String)>) -> Seq<(Seq<char>, Seq<char>)> {
    pairs.map_values(|p: (String, String)| (p.0@, p.1@))
}

/// The views of a list of regexes: their source texts.
pub open spec fn regexes_view(res: Seq<Regex>) -> Seq<Seq<char>> {
    res.map_values(|r: Regex| r@)
}

/// What an [`IdentRenamer`] holds, as plain values.
pub struct IdentRenamerModel {
    pub remove: Option<Seq<Seq<char>>>,
    pub renames: Seq<(Seq<char>, Seq<char>)>,
    pub case: Option<Case>,
}

impl IdentRenamerModel {
    /// The name after removals, before an explicit rename or a case conversion.
    pub open spec fn stripped(self, name: Seq<char>) -> Seq<char> {
        match self.remove {
            Some(patterns) => removed_all(patterns, name),
            None => name,
        }
    }

    /// The new name: the explicit rename of the stripped name if there is one, else the
    /// stripped name converted to the case, else the stripped name itself.
    pub open spec fn renamed(self, name: Seq<char>) -> Seq<char> {
        let stripped = self.stripped(name);
        match rename_lookup(self.renames, stripped) {
            Some(target) => target,
            None => match self.case {
                Some(case) => case_converted(stripped, case),
                None => stripped,
            },
        }
    }
}

/// Rules that rename one identifier: regexes whose matches are removed, explicit renames of
/// the result (a later entry for the same name wins), and a case to convert to otherwise.
#[derive(Debug)]
pub struct IdentRenamer {
    /// Regexes whose matches are removed, in order, before renames and case conversion.
    pub remove: Option<Vec<Regex>>,
    /// Explicit renames, applied to the name after removals.
    pub renames: Vec<(String, String)>,
    /// Case conversion applied when no explicit rename matches.
    pub case: Option<Case>,
}

impl View for IdentRenamer {
    type V = IdentRenamerModel;

    open spec fn view(&self) -> IdentRenamerModel {
        IdentRenamerModel {
            remove: match self.remove {
                Some(v) => Some(regexes_view(v@)),
                None => None,
            },
            renames: pairs_view(self.renames@),
            case: self.case,
        }
    }
}

/// Looks `key` up in `renames`; the last matching entry wins.
fn lookup_rename(renames: &Vec<(String, String)>, key: &str) -> (found: Option<String>)
    ensures
        match found {
            Some(t) => rename_lookup(pairs_view(renames@), key@) == Some(t@),
            None => rename_lookup(pairs_view(renames@), key@) is None,
        },
{
    let mut found: Option<String> = None;
    let mut i: usize = 0;
    while i < renames.len()
        invariant
            i <= renames.len(),
            match found {
                Some(t) => rename_lookup(pairs_view(renames@).take(i as int), key@) == Some(t@),
                None => rename_lookup(pairs_view(renames@).take(i as int), key@) is None,
            },
        decreases renames.len() - i,
    {
        let ghost prefix = pairs_view(renames@).take(i + 1);
        assert(prefix.drop_last() == pairs_view(renames@).take(i as int));
        if str_equal(renames[i].0.as_str(), key) {
            found = Some(renames[i].1.clone());
        }
        i = i + 1;
    }
    assert(pairs_view(renames@).take(renames.len() as int) == pairs_view(renames@));
    found
}

impl IdentRenamer {
    /// A renamer that only converts to `case`.
    pub fn default_case(case: Case) -> (r: IdentRenamer)
        ensures
            r@.remove is None,
            r@.renames.len() == 0,
            r@.case == Some(case),
    {
        IdentRenamer { remove: None, renames: Vec::new(), case: Some(case) }
    }

    /// Renames `name`: removals in order, then the explicit rename or the case conversion.
    pub fn apply(&self, name: &str) -> (out: String)
        ensures
            out@ == self@.renamed(name@),
    {
        let mut val: String = name.to_owned();
        match &self.remove {
            Some(remove) => {
                let mut i: usize = 0;
                while i < remove.len()
                    invariant
                        i <= remove.len(),
                        val@ == removed_all(regexes_view(remove@).take(i as int), name@),
                    decreases remove.len() - i,
                {
                    assert(regexes_view(remove@).take(i + 1).drop_last() == regexes_view(
                        remove@,
                    ).take(i as int));
                    val = remove[i].remove_all(val.as_str());
                    i = i + 1;
                }
                assert(regexes_view(remove@).take(remove.len() as int) == regexes_view(remove@));
            },
            None => {},
        }
        match lookup_rename(&self.renames, val.as_str()) {
            Some(target) => target,
            None => match self.case {
                Some(case) => convert_to_case(val.as_str(), case),
                None => val,
            },
        }
    }
}

impl Default for IdentRenamer {
    fn default() -> (r: IdentRenamer)
        ensures
            r@.remove is None,
            r@.renames.len() == 0,
            r@.case is None,
    {
        IdentRenamer { remove: None, renames: Vec::new(), case: None }
    }
}

/// A renamer without removals, renames or case leaves every name as it is.
pub proof fn lemma_plain_renamer_keeps_names(r: IdentRenamerModel, name: Seq<char>)
    requires
        r.remove is None,
        r.renames.len() == 0,
        r.case is None,
    ensures
        r.renamed(name) == name,
{
}

/// An explicit rename of the name left after removals wins over the case conversion.
pub proof fn lemma_explicit_rename_wins(r: IdentRenamerModel, name: Seq<char>, target: Seq<char>)
    requires
        rename_lookup(r.renames, r.stripped(name)) == Some(target),
    ensures
        r.renamed(name) == target,
{
}

/// Of two renames of the same name, the later one wins.
pub proof fn lemma_later_rename_wins(
    renames: Seq<(Seq<char>, Seq<char>)>,
    key: Seq<char>,
    target: Seq<char>,
)
    ensures
        rename_lookup(renames.push((key, target)), key) == Some(target),
{
    assert(renames.push((key, target)).drop_last() =~= renames);
}

/// Removals run in order, the first pattern on the original name: removing `p` then the
/// rest is the same as removing the rest from what `p` left.
pub proof fn lemma_removals_in_order(p: Seq<char>, rest: Seq<Seq<char>>, text: Seq<char>)
    ensures
        removed_all(seq![p] + rest, text) == removed_all(rest, regex_removed(p, text)),
    decreases rest.len(),
{
    if rest.len() == 0 {
        assert((seq![p] + rest).drop_last() =~= Seq::<Seq<char>>::empty());
        assert(seq![p] + rest =~= seq![p]);
        assert(removed_all(Seq::<Seq<char>>::empty(), text) == text);
    } else {
        lemma_removals_in_order(p, rest.drop_last(), text);
        assert((seq![p] + rest).drop_last() =~= seq![p] + rest.drop_last());
        assert((seq![p] + rest).last() == rest.last());
    }
}

/// Without an explicit rename of the name left after removals, that name is converted to
/// the renamer's case, or kept as it is when there is none.
pub proof fn lemma_case_without_rename(r: IdentRenamerModel, name: Seq<char>)
    requires
        rename_lookup(r.renames, r.stripped(name)) is None,
    ensures
        r.case matches Some(c) ==> r.renamed(name) == case_converted(r.stripped(name), c),
        r.case is None ==> r.renamed(name) == r.stripped(name),
{
}

} // verus!
