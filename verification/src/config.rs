//! Project defaults of `cargo-impact.toml`.
use crate::args::{FailOn, ImpactArgs};
use crate::finding::clone_texts;
use crate::text::{lowered, same, to_lower};
use vstd::prelude::*;
use vstd::string::*;

verus! {

/// The file that holds the defaults.
pub fn config_filename() -> (r: &'static str)
    ensures
        r@ == "cargo-impact.toml"@,
{
    "cargo-impact.toml"
}

/// A project's defaults; every one can be left out.
#[derive(Debug, PartialEq, Eq)]
pub struct Defaults {
    /// Hundredths of confidence.
    pub confidence_min: Option<i64>,
    /// `high`, `medium` or `low`, in any case.
    pub fail_on: Option<String>,
    pub semver_checks: Option<bool>,
    pub rust_analyzer: Option<bool>,
    pub features: Option<Vec<String>>,
    pub all_features: Option<bool>,
    pub no_default_features: Option<bool>,
    pub budget: Option<usize>,
}

impl Default for Defaults {
    fn default() -> (r: Defaults)
        ensures
            r.confidence_min is None,
            r.fail_on is None,
            r.semver_checks is None,
            r.rust_analyzer is None,
            r.features is None,
            r.all_features is None,
            r.no_default_features is None,
            r.budget is None,
    {
        Defaults {
            confidence_min: None,
            fail_on: None,
            semver_checks: None,
            rust_analyzer: None,
            features: None,
            all_features: None,
            no_default_features: None,
            budget: None,
        }
    }
}

/// What a configuration file says.
#[derive(Debug, PartialEq, Eq)]
pub struct ConfigFile {
    pub defaults: Defaults,
}

impl Default for ConfigFile {
    fn default() -> (r: ConfigFile)
        ensures
            r.defaults.confidence_min is None,
            r.defaults.fail_on is None,
            r.defaults.semver_checks is None,
            r.defaults.rust_analyzer is None,
            r.defaults.features is None,
            r.defaults.all_features is None,
            r.defaults.no_default_features is None,
            r.defaults.budget is None,
    {
        ConfigFile { defaults: Defaults::default() }
    }
}

/// The fail level of a lower-case name.
pub open spec fn level_named(name: Seq<char>) -> Option<FailOn> {
    if name == "high"@ {
        Some(FailOn::High)
    } else if name == "medium"@ {
        Some(FailOn::Medium)
    } else if name == "low"@ {
        Some(FailOn::Low)
    } else {
        None
    }
}

/// The fail level of a lower-case name.
pub fn named_level(name: &str) -> (r: Option<FailOn>)
    ensures
        r == level_named(name@),
{
    if same(name, "high") {
        Some(FailOn::High)
    } else if same(name, "medium") {
        Some(FailOn::Medium)
    } else if same(name, "low") {
        Some(FailOn::Low)
    } else {
        None
    }
}

/// A flag that a default can switch on.
pub open spec fn flag_with_default(flag: bool, default: Option<bool>) -> bool {
    flag || default == Some(true)
}

fn with_default(flag: bool, default: Option<bool>) -> (r: bool)
    ensures
        r == flag_with_default(flag, default),
{
    match default {
        Some(d) => flag || d,
        None => flag,
    }
}

/// The fail level of a run: its own, or the one that the defaults name.
pub open spec fn level_with_default(level: Option<FailOn>, default: Option<String>) -> Option<
    FailOn,
> {
    match (level, default) {
        (Some(g), _) => Some(g),
        (None, Some(s)) => level_named(lowered(s@)),
        (None, None) => None,
    }
}

/// The fail level of a run, and the name in the defaults that names none.
fn choose_level(level: Option<FailOn>, default: &Option<String>) -> (r: (
    Option<FailOn>,
    Option<String>,
))
    ensures
        r.0 == level_with_default(level, *default),
        match r.1 {
            Some(s) => level is None && default is Some && s@ == lowered(default->0@)
                && level_named(s@) is None,
            None => level is Some || default is None || level_named(lowered(default->0@)) is Some,
        },
{
    match (level, default) {
        (Some(g), _) => (Some(g), None),
        (None, Some(s)) => {
            let name = to_lower(s.as_str());
            match named_level(name.as_str()) {
                Some(g) => (Some(g), None),
                None => (None, Some(name)),
            }
        },
        (None, None) => (None, None),
    }
}

/// The least confidence of a run: its own, or that of the defaults where it has
/// none.
pub open spec fn confidence_with_default(own: i64, default: Option<i64>) -> i64 {
    match default {
        Some(v) if own == 0 => v,
        _ => own,
    }
}

fn choose_confidence(own: i64, default: Option<i64>) -> (r: i64)
    ensures
        r == confidence_with_default(own, default),
{
    match default {
        Some(v) if own == 0 => v,
        _ => own,
    }
}

/// The budget of a run: its own, or that of the defaults where it has none.
pub open spec fn budget_with_default(own: usize, default: Option<usize>) -> usize {
    match default {
        Some(v) if own == 0 => v,
        _ => own,
    }
}

fn choose_budget(own: usize, default: Option<usize>) -> (r: usize)
    ensures
        r == budget_with_default(own, default),
{
    match default {
        Some(v) if own == 0 => v,
        _ => own,
    }
}

/// Whether `m` is what a run is asked to do once a project's defaults are filled
/// in: what the run leaves at its default comes from them, and what it sets
/// itself stays.
pub open spec fn merged(args: ImpactArgs, defaults: Defaults, m: ImpactArgs) -> bool {
    &&& m.test == args.test
    &&& m.format == args.format
    &&& m.since == args.since
    &&& m.manifest_dir == args.manifest_dir
    &&& m.context == args.context
    &&& m.macro_expand == args.macro_expand
    &&& m.feature_powerset == args.feature_powerset
    &&& m.confidence_min == confidence_with_default(args.confidence_min, defaults.confidence_min)
    &&& m.fail_on == level_with_default(args.fail_on, defaults.fail_on)
    &&& m.semver_checks == flag_with_default(args.semver_checks, defaults.semver_checks)
    &&& m.rust_analyzer == flag_with_default(args.rust_analyzer, defaults.rust_analyzer)
    &&& m.all_features == flag_with_default(args.all_features, defaults.all_features)
    &&& m.no_default_features == flag_with_default(
        args.no_default_features,
        defaults.no_default_features,
    )
    &&& m.features@ == (match defaults.features {
        Some(v) if args.features@.len() == 0 => v@,
        _ => args.features@,
    })
    &&& m.budget == budget_with_default(args.budget, defaults.budget)
}

/// Fills in what a run leaves at its default from a project's defaults. What
/// the run sets itself stays. A fail level of an unknown name stays unset; the
/// result is that name, in lower case.
pub fn apply_config(defaults: &Defaults, args: &mut ImpactArgs) -> (r: Option<String>)
    ensures
        merged(*old(args), *defaults, *final(args)),
        match r {
            Some(s) => old(args).fail_on is None && defaults.fail_on is Some && s@ == lowered(
                defaults.fail_on->0@,
            ) && level_named(s@) is None,
            None => old(args).fail_on is Some || defaults.fail_on is None || level_named(
                lowered(defaults.fail_on->0@),
            ) is Some,
        },
{
    let (level, refused) = choose_level(args.fail_on, &defaults.fail_on);
    args.confidence_min = choose_confidence(args.confidence_min, defaults.confidence_min);
    args.fail_on = level;
    args.semver_checks = with_default(args.semver_checks, defaults.semver_checks);
    args.rust_analyzer = with_default(args.rust_analyzer, defaults.rust_analyzer);
    args.all_features = with_default(args.all_features, defaults.all_features);
    args.no_default_features = with_default(
        args.no_default_features,
        defaults.no_default_features,
    );
    args.budget = choose_budget(args.budget, defaults.budget);
    match &defaults.features {
        Some(v) => {
            if args.features.len() == 0 {
                args.features = clone_texts(v);
            }
        },
        None => {},
    }
    refused
}

/// What a run sets itself no default changes; nor what the defaults do not
/// speak of.
pub proof fn set_values_stay(args: ImpactArgs, defaults: Defaults, m: ImpactArgs)
    requires
        merged(args, defaults, m),
    ensures
        args.confidence_min != 0 ==> m.confidence_min == args.confidence_min,
        args.fail_on is Some ==> m.fail_on == args.fail_on,
        args.semver_checks ==> m.semver_checks,
        args.rust_analyzer ==> m.rust_analyzer,
        args.all_features ==> m.all_features,
        args.no_default_features ==> m.no_default_features,
        args.features@.len() > 0 ==> m.features@ == args.features@,
        args.budget != 0 ==> m.budget == args.budget,
        m.test == args.test,
        m.format == args.format,
        m.since == args.since,
        m.manifest_dir == args.manifest_dir,
        m.context == args.context,
        m.macro_expand == args.macro_expand,
        m.feature_powerset == args.feature_powerset,
{
}

/// What a run leaves at its default comes from the defaults, where they set it.
pub proof fn unset_values_are_filled_in(args: ImpactArgs, defaults: Defaults, m: ImpactArgs)
    requires
        merged(args, defaults, m),
    ensures
        args.confidence_min == 0 ==> m.confidence_min == (match defaults.confidence_min {
            Some(v) => v,
            None => 0,
        }),
        args.budget == 0 ==> m.budget == (match defaults.budget {
            Some(v) => v,
            None => 0,
        }),
        !args.semver_checks ==> (m.semver_checks <==> defaults.semver_checks == Some(true)),
        !args.rust_analyzer ==> (m.rust_analyzer <==> defaults.rust_analyzer == Some(true)),
        !args.all_features ==> (m.all_features <==> defaults.all_features == Some(true)),
        !args.no_default_features ==> (m.no_default_features <==> defaults.no_default_features
            == Some(true)),
        args.features@.len() == 0 ==> m.features@ == (match defaults.features {
            Some(v) => v@,
            None => args.features@,
        }),
{
}

/// The defaults set the fail level of a run that sets none by its name, in any
/// case, and by no other text.
pub proof fn levels_are_named_in_any_case(args: ImpactArgs, defaults: Defaults, m: ImpactArgs)
    requires
        merged(args, defaults, m),
        args.fail_on is None,
    ensures
        m.fail_on == Some(FailOn::High) <==> (defaults.fail_on matches Some(s) && lowered(s@)
            == "high"@),
        m.fail_on == Some(FailOn::Medium) <==> (defaults.fail_on matches Some(s) && lowered(s@)
            == "medium"@),
        m.fail_on == Some(FailOn::Low) <==> (defaults.fail_on matches Some(s) && lowered(s@)
            == "low"@),
{
    reveal_strlit("high");
    reveal_strlit("medium");
    reveal_strlit("low");
    assert("high"@.len() == 4);
    assert("medium"@.len() == 6);
    assert("low"@.len() == 3);
}

} // verus!
