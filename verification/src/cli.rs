//! Separation of the helper's own `--helper-config` option from the arguments meant for
//! bindgen.

use vstd::prelude::*;
use crate::text::{chars_of, string_of};

verus! {

/// Error in the helper's own command-line option.
#[derive(Debug, PartialEq, Eq, Structural)]
pub enum CliArgsError {
    /// `--helper-config` came last, without a path.
    MissingHelperConfigValue,
    /// `--helper-config` was given more than once.
    DuplicateHelperConfig,
}

/// Where the helper config path is: a whole argument, by its index, or the text after
/// `--helper-config=`.
#[derive(Debug, PartialEq, Eq)]
pub enum HelperConfigSource {
    Arg(usize),
    Inline(String),
}

/// The arguments for bindgen, by index, and the helper config path if one was given.
#[derive(Debug)]
pub struct ParsedArgs {
    pub bindgen_args: Vec<usize>,
    pub helper_config: Option<HelperConfigSource>,
}

/// A [`HelperConfigSource`] as plain values.
pub enum SourceModel {
    Arg(int),
    Inline(Seq<char>),
}

/// The view of a config source.
pub open spec fn source_model(s: HelperConfigSource) -> SourceModel {
    match s {
        HelperConfigSource::Arg(i) => SourceModel::Arg(i as int),
        HelperConfigSource::Inline(t) => SourceModel::Inline(t@),
    }
}

/// The option that names the helper config.
pub open spec fn config_flag() -> Seq<char> {
    "--helper-config"@
}

/// What follows `--helper-config` in `arg`, when `arg` starts with it.
pub open spec fn flag_remainder(arg: Seq<char>) -> Option<Seq<char>> {
    let n = config_flag().len();
    if arg.len() >= n && arg.take(n as int) == config_flag() {
        Some(arg.skip(n as int))
    } else {
        None
    }
}

/// The outcome of reading the arguments from index `i` on, with the bindgen arguments and
/// the config source found so far. An argument that is not UTF-8 (`None`) always goes to
/// bindgen.
pub open spec fn scan_args(
    args: Seq<Option<Seq<char>>>,
    i: int,
    bindgen: Seq<int>,
    config: Option<SourceModel>,
) -> Result<(Seq<int>, Option<SourceModel>), CliArgsError>
    decreases args.len() - i,
{
    if i < 0 || i >= args.len() {
        Ok((bindgen, config))
    } else {
        let rem = match args[i] {
            Some(t) => flag_remainder(t),
            None => None,
        };
        if rem matches Some(r) && r.len() == 0 {
            if i + 1 >= args.len() {
                Err(CliArgsError::MissingHelperConfigValue)
            } else if config is Some {
                Err(CliArgsError::DuplicateHelperConfig)
            } else {
                scan_args(args, i + 2, bindgen, Some(SourceModel::Arg(i + 1)))
            }
        } else if rem matches Some(r) && r[0] == '=' {
            if config is Some {
                Err(CliArgsError::DuplicateHelperConfig)
            } else {
                scan_args(args, i + 1, bindgen, Some(SourceModel::Inline(rem->0.drop_first())))
            }
        } else {
            scan_args(args, i + 1, bindgen.push(i), config)
        }
    }
}

/// The outcome of reading all arguments: the first (the program) always goes to bindgen.
pub open spec fn parsed_args(args: Seq<Option<Seq<char>>>) -> Result<
    (Seq<int>, Option<SourceModel>),
    CliArgsError,
> {
    if args.len() == 0 {
        Ok((Seq::empty(), None))
    } else {
        scan_args(args, 1, seq![0int], None)
    }
}

/// The views of optional strings.
pub open spec fn args_view(args: Seq<Option<String>>) -> Seq<Option<Seq<char>>> {
    args.map_values(
        |a: Option<String>|
            match a {
                Some(s) => Some(s@),
                None => None,
            },
    )
}

/// The views of indices.
pub open spec fn indices_view(v: Seq<usize>) -> Seq<int> {
    v.map_values(|i: usize| i as int)
}

/// What follows `flag` in `arg`, when `arg` starts with it.
fn strip_flag(arg: &str, flag: &Vec<char>) -> (r: Option<Vec<char>>)
    requires
        flag@ == config_flag(),
    ensures
        match r {
            Some(rest) => flag_remainder(arg@) == Some(rest@),
            None => flag_remainder(arg@) is None,
        },
{
    let chars = chars_of(arg);
    if chars.len() < flag.len() {
        return None;
    }
    let mut i: usize = 0;
    while i < flag.len()
        invariant
            i <= flag.len() <= chars.len(),
            chars@ == arg@,
            flag@ == config_flag(),
            forall|k: int| 0 <= k < i ==> chars@[k] == flag@[k],
        decreases flag.len() - i,
    {
        if chars[i] != flag[i] {
            assert(chars@.take(flag.len() as int)[i as int] != flag@[i as int]);
            assert(arg@.take(flag.len() as int) != config_flag());
            return None;
        }
        i = i + 1;
    }
    assert(chars@.take(flag.len() as int) =~= flag@);
    let mut rest: Vec<char> = Vec::new();
    let mut k: usize = flag.len();
    while k < chars.len()
        invariant
            flag.len() <= k <= chars.len(),
            chars@ == arg@,
            flag@ == config_flag(),
            rest@ == chars@.subrange(flag.len() as int, k as int),
        decreases chars.len() - k,
    {
        rest.push(chars[k]);
        assert(rest@ =~= chars@.subrange(flag.len() as int, k + 1));
        k = k + 1;
    }
    assert(rest@ =~= chars@.skip(flag.len() as int));
    Some(rest)
}

/// Separates `--helper-config PATH` and `--helper-config=PATH` from the arguments meant for
/// bindgen. `args` holds each command-line argument, `None` for one that is not UTF-8;
/// the first one is the program name. Arguments that merely start with the same letters,
/// such as `--helper-configured`, go to bindgen.
pub fn extract_helper_config(args: &Vec<Option<String>>) -> (r: Result<ParsedArgs, CliArgsError>)
    ensures
        match r {
            Ok(p) => parsed_args(args_view(args@)) == Ok::<(Seq<int>, Option<SourceModel>), CliArgsError>(
                (
                    indices_view(p.bindgen_args@),
                    match p.helper_config {
                        Some(s) => Some(source_model(s)),
                        None => None,
                    },
                ),
            ),
            Err(e) => parsed_args(args_view(args@)) == Err::<(Seq<int>, Option<SourceModel>), CliArgsError>(e),
        },
{
    let ghost av = args_view(args@);
    let mut bindgen_args: Vec<usize> = Vec::new();
    let mut helper_config: Option<HelperConfigSource> = None;
    if args.len() == 0 {
        assert(indices_view(bindgen_args@) =~= Seq::<int>::empty());
        return Ok(ParsedArgs { bindgen_args, helper_config });
    }
    bindgen_args.push(0);
    assert(indices_view(bindgen_args@) =~= seq![0int]);
    let flag = chars_of("--helper-config");
    let mut i: usize = 1;
    while i < args.len()
        invariant
            1 <= i,
            av == args_view(args@),
            flag@ == config_flag(),
            parsed_args(av) == scan_args(
                av,
                i as int,
                indices_view(bindgen_args@),
                match helper_config {
                    Some(s) => Some(source_model(s)),
                    None => None,
                },
            ),
        decreases args.len() - i,
    {
        let rem = match &args[i] {
            Some(t) => strip_flag(t.as_str(), &flag),
            None => None,
        };
        assert(av[i as int] == match args@[i as int] {
            Some(s) => Some(s@),
            None => None::<Seq<char>>,
        });
        match &rem {
            Some(rest) => {
                if rest.len() == 0 {
                    if i + 1 >= args.len() {
                        return Err(CliArgsError::MissingHelperConfigValue);
                    }
                    if helper_config.is_some() {
                        return Err(CliArgsError::DuplicateHelperConfig);
                    }
                    helper_config = Some(HelperConfigSource::Arg(i + 1));
                    i = i + 2;
                    continue;
                }
                if rest[0] == '=' {
                    if helper_config.is_some() {
                        return Err(CliArgsError::DuplicateHelperConfig);
                    }
                    let mut value: Vec<char> = Vec::new();
                    let mut k: usize = 1;
                    while k < rest.len()
                        invariant
                            1 <= k <= rest.len(),
                            value@ == rest@.subrange(1, k as int),
                        decreases rest.len() - k,
                    {
                        value.push(rest[k]);
                        assert(value@ =~= rest@.subrange(1, k + 1));
                        k = k + 1;
                    }
                    assert(value@ =~= rest@.drop_first());
                    helper_config = Some(HelperConfigSource::Inline(string_of(&value)));
                    i = i + 1;
                    continue;
                }
            },
            None => {},
        }
        let ghost before = bindgen_args@;
        bindgen_args.push(i);
        assert(indices_view(bindgen_args@) =~= indices_view(before).push(i as int));
        i = i + 1;
    }
    Ok(ParsedArgs { bindgen_args, helper_config })
}

/// Whether an argument is the helper's own option, in either spelling.
pub open spec fn names_config(arg: Option<Seq<char>>) -> bool {
    match arg {
        Some(t) => match flag_remainder(t) {
            Some(r) => r.len() == 0 || r[0] == '=',
            None => false,
        },
        None => false,
    }
}

proof fn lemma_scan_plain(
    args: Seq<Option<Seq<char>>>,
    i: int,
    bindgen: Seq<int>,
    config: Option<SourceModel>,
)
    requires
        0 <= i <= args.len(),
        forall|k: int| i <= k < args.len() ==> !names_config(#[trigger] args[k]),
    ensures
        scan_args(args, i, bindgen, config) == Ok::<(Seq<int>, Option<SourceModel>), CliArgsError>(
            (bindgen + Seq::new((args.len() - i) as nat, |k: int| i + k), config),
        ),
    decreases args.len() - i,
{
    if i == args.len() {
        assert(bindgen + Seq::new(0, |k: int| i + k) =~= bindgen);
    } else {
        assert(!names_config(args[i]));
        lemma_scan_plain(args, i + 1, bindgen.push(i), config);
        assert(bindgen.push(i) + Seq::new((args.len() - i - 1) as nat, |k: int| i + 1 + k)
            =~= bindgen + Seq::new((args.len() - i) as nat, |k: int| i + k));
    }
}

/// Without the helper's own option, every argument goes to bindgen, in order, and no
/// config path is found.
pub proof fn lemma_plain_args_pass_through(args: Seq<Option<Seq<char>>>)
    requires
        forall|k: int| 1 <= k < args.len() ==> !names_config(#[trigger] args[k]),
    ensures
        parsed_args(args) == Ok::<(Seq<int>, Option<SourceModel>), CliArgsError>(
            (Seq::new(args.len(), |k: int| k), None),
        ),
{
    if args.len() == 0 {
        assert(Seq::new(0, |k: int| k) =~= Seq::<int>::empty());
    } else {
        lemma_scan_plain(args, 1, seq![0int], None);
        assert(seq![0int] + Seq::new((args.len() - 1) as nat, |k: int| 1 + k) =~= Seq::new(
            args.len(),
            |k: int| k,
        ));
    }
}

/// The helper's option given twice is refused, when both occurrences are reached: the second
/// one is met with a path already found.
pub proof fn lemma_second_config_refused(
    args: Seq<Option<Seq<char>>>,
    i: int,
    bindgen: Seq<int>,
    config: SourceModel,
)
    requires
        0 <= i < args.len(),
        names_config(args[i]),
        args[i] matches Some(t) && flag_remainder(t) matches Some(r) && r.len() == 0 ==> i + 1
            < args.len(),
    ensures
        scan_args(args, i, bindgen, Some(config)) == Err::<(Seq<int>, Option<SourceModel>), CliArgsError>(
            CliArgsError::DuplicateHelperConfig,
        ),
{
}

/// Each index comes after the one before it.
pub open spec fn increasing(b: Seq<int>) -> bool {
    forall|x: int, y: int| 0 <= x < y < b.len() ==> #[trigger] b[x] < #[trigger] b[y]
}

/// What follows `--helper-config` in an argument, when it starts with it.
pub open spec fn arg_remainder(arg: Option<Seq<char>>) -> Option<Seq<char>> {
    match arg {
        Some(t) => flag_remainder(t),
        None => None,
    }
}

/// Where the scan from `i` on found the config `src`: the option's own arguments are the
/// only ones at `i` or later that `b` lacks.
spec fn found_from(args: Seq<Option<Seq<char>>>, i: int, src: SourceModel, b: Seq<int>) -> bool {
    match src {
        SourceModel::Inline(v) => exists|j: int|
            i <= j < args.len() && arg_remainder(#[trigger] args[j]) == Some(seq!['='] + v)
                && forall|k: int| i <= k < args.len() ==> (#[trigger] b.contains(k) <==> k != j),
        SourceModel::Arg(p) => i + 1 <= p < args.len() && arg_remainder(args[p - 1]) == Some(
            Seq::<char>::empty(),
        ) && forall|k: int|
            i <= k < args.len() ==> (#[trigger] b.contains(k) <==> k != p - 1 && k != p),
    }
}

proof fn lemma_scan_keeps_others(
    args: Seq<Option<Seq<char>>>,
    i: int,
    bindgen: Seq<int>,
    config: Option<SourceModel>,
)
    requires
        0 <= i <= args.len(),
        increasing(bindgen),
        forall|x: int| 0 <= x < bindgen.len() ==> 0 <= #[trigger] bindgen[x] < i,
    ensures
        scan_args(args, i, bindgen, config) is Ok ==> ({
            let b = scan_args(args, i, bindgen, config)->Ok_0.0;
            let c = scan_args(args, i, bindgen, config)->Ok_0.1;
            &&& increasing(b)
            &&& forall|x: int| 0 <= x < b.len() ==> 0 <= #[trigger] b[x] < args.len()
            &&& forall|k: int| 0 <= k < i ==> (#[trigger] b.contains(k) <==> bindgen.contains(k))
            &&& c == config ==> forall|k: int| i <= k < args.len() ==> #[trigger] b.contains(k)
            &&& c != config ==> config is None && found_from(args, i, c->0, b)
        }),
    decreases args.len() - i,
{
    broadcast use vstd::seq_lib::lemma_seq_contains_after_push;
    if i < args.len() && scan_args(args, i, bindgen, config) is Ok {
        let res = scan_args(args, i, bindgen, config);
        let b = res->Ok_0.0;
        let c = res->Ok_0.1;
        let rem = match args[i] {
            Some(t) => flag_remainder(t),
            None => None,
        };
        assert(!bindgen.contains(i) && !bindgen.contains(i + 1));
        if rem matches Some(r) && r.len() == 0 {
            let cfg2 = Some(SourceModel::Arg(i + 1));
            lemma_scan_keeps_others(args, i + 2, bindgen, cfg2);
            assert(res == scan_args(args, i + 2, bindgen, cfg2));
            assert(c == cfg2);
            assert(arg_remainder(args[i]) == Some(Seq::<char>::empty()));
            assert forall|k: int| i <= k < args.len() implies (#[trigger] b.contains(k) <==> k
                != i && k != i + 1) by {}
            assert(found_from(args, i, c->0, b));
        } else if rem matches Some(r) && r[0] == '=' {
            let v = rem->0.drop_first();
            let cfg2 = Some(SourceModel::Inline(v));
            lemma_scan_keeps_others(args, i + 1, bindgen, cfg2);
            assert(res == scan_args(args, i + 1, bindgen, cfg2));
            assert(c == cfg2);
            assert(rem->0 =~= seq!['='] + v);
            assert forall|k: int| i <= k < args.len() implies (#[trigger] b.contains(k) <==> k
                != i) by {}
            assert(arg_remainder(args[i]) == Some(seq!['='] + v));
            assert(found_from(args, i, c->0, b));
        } else {
            let pushed = bindgen.push(i);
            assert forall|x: int, y: int| 0 <= x < y < pushed.len() implies #[trigger] pushed[x]
                < #[trigger] pushed[y] by {
                if y < bindgen.len() {
                    assert(pushed[x] == bindgen[x] && pushed[y] == bindgen[y]);
                }
            }
            assert forall|x: int| 0 <= x < pushed.len() implies 0 <= #[trigger] pushed[x] < i
                + 1 by {
                if x < bindgen.len() {
                    assert(pushed[x] == bindgen[x]);
                }
            }
            lemma_scan_keeps_others(args, i + 1, pushed, config);
            assert(res == scan_args(args, i + 1, pushed, config));
            assert(b.contains(i));
            if c != config {
                match c->0 {
                    SourceModel::Inline(v) => {
                        let j = choose|j: int|
                            i + 1 <= j < args.len() && arg_remainder(#[trigger] args[j]) == Some(
                                seq!['='] + v,
                            ) && forall|k: int|
                                i + 1 <= k < args.len() ==> (#[trigger] b.contains(k) <==> k != j);
                        assert forall|k: int| i <= k < args.len() implies (#[trigger] b.contains(
                            k,
                        ) <==> k != j) by {}
                    },
                    SourceModel::Arg(p) => {},
                }
            }
        }
    }
}

/// A bare `--helper-config` as the last argument, once reached, is refused for want of a
/// path, whether or not a path was found before.
pub proof fn lemma_trailing_option_refused(
    args: Seq<Option<Seq<char>>>,
    bindgen: Seq<int>,
    config: Option<SourceModel>,
)
    requires
        args.len() > 0,
        arg_remainder(args.last()) == Some(Seq::<char>::empty()),
    ensures
        scan_args(args, args.len() - 1, bindgen, config) == Err::<
            (Seq<int>, Option<SourceModel>),
            CliArgsError,
        >(CliArgsError::MissingHelperConfigValue),
{
}

/// Only the helper's option leaves the arguments: the indices handed to bindgen come in
/// order, each once; with no config option every argument is handed on; with
/// `--helper-config=PATH` every argument but that one; with `--helper-config PATH` every
/// argument but those two.
pub proof fn lemma_only_the_option_is_removed(args: Seq<Option<Seq<char>>>)
    requires
        parsed_args(args) is Ok,
    ensures
        ({
            let b = parsed_args(args)->Ok_0.0;
            let c = parsed_args(args)->Ok_0.1;
            &&& increasing(b)
            &&& forall|x: int| 0 <= x < b.len() ==> 0 <= #[trigger] b[x] < args.len()
            &&& c is None ==> forall|k: int| 0 <= k < args.len() ==> #[trigger] b.contains(k)
            &&& c matches Some(SourceModel::Inline(v)) ==> exists|j: int|
                1 <= j < args.len() && arg_remainder(#[trigger] args[j]) == Some(seq!['='] + v)
                    && forall|k: int|
                    0 <= k < args.len() ==> (#[trigger] b.contains(k) <==> k != j)
            &&& c matches Some(SourceModel::Arg(p)) ==> 2 <= p < args.len() && arg_remainder(args[p - 1]) == Some(
                Seq::<char>::empty(),
            ) && forall|k: int|
                0 <= k < args.len() ==> (#[trigger] b.contains(k) <==> k != p - 1 && k != p)
        }),
{
    if args.len() > 0 {
        let start = seq![0int];
        lemma_scan_keeps_others(args, 1, start, None);
        let b = parsed_args(args)->Ok_0.0;
        assert(start[0] == 0);
        assert(b.contains(0) <==> start.contains(0));
        assert(start.contains(0));
    }
}

} // verus!
