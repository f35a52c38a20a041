//! What a run is asked to do.
use crate::finding::{finding_views, Finding, FindingView, SeverityClass};
use crate::format::Format;
use vstd::prelude::*;

verus! {

/// Severity from which on a finding makes a run fail.
#[derive(Debug, Clone, Copy, PartialEq, Eq, Structural)]
pub enum FailOn {
    High,
    Medium,
    Low,
}

impl FailOn {
    /// Whether a finding of severity `sev` makes the run fail: it is at least
    /// as grave as the fail level, and known.
    pub open spec fn triggers_spec(self, sev: SeverityClass) -> bool {
        match self {
            FailOn::High => sev == SeverityClass::High,
            FailOn::Medium => sev == SeverityClass::High || sev == SeverityClass::Medium,
            FailOn::Low => sev != SeverityClass::Unknown,
        }
    }

    /// Whether a finding of severity `sev` makes the run fail.
    pub fn triggers(self, sev: SeverityClass) -> (r: bool)
        ensures
            r == self.triggers_spec(sev),
    {
        match self {
            FailOn::High => match sev {
                SeverityClass::High => true,
                _ => false,
            },
            FailOn::Medium => match sev {
                SeverityClass::High | SeverityClass::Medium => true,
                _ => false,
            },
            FailOn::Low => match sev {
                SeverityClass::Unknown => false,
                _ => true,
            },
        }
    }
}

/// Whether some finding reaches a fail level.
pub open spec fn level_reached(level: Option<FailOn>, s: Seq<FindingView>) -> bool {
    match level {
        Some(g) => exists|i: int| 0 <= i < s.len() && g.triggers_spec((#[trigger] s[i]).severity),
        None => false,
    }
}

/// Whether some finding reaches a fail level.
pub fn reaches_level(level: Option<FailOn>, findings: &Vec<Finding>) -> (r: bool)
    ensures
        r == level_reached(level, finding_views(findings@)),
{
    let g = match level {
        Some(g) => g,
        None => {
            return false;
        },
    };
    let ghost s = finding_views(findings@);
    let mut i: usize = 0;
    while i < findings.len()
        invariant
            i <= findings@.len(),
            s == finding_views(findings@),
            level == Some(g),
            forall|j: int| 0 <= j < i ==> !g.triggers_spec((#[trigger] s[j]).severity),
        decreases findings@.len() - i,
    {
        proof {
            assert(s[i as int] == findings@[i as int]@);
        }
        if g.triggers(findings[i].severity) {
            return true;
        }
        i = i + 1;
    }
    false
}

/// A lesser fail level is reached whenever a graver one is,
/// and a graver finding reaches every level that a lesser one reaches. Unknown
/// findings reach none.
pub proof fn fail_levels_are_nested(sev: SeverityClass, graver: SeverityClass, level: FailOn)
    ensures
        FailOn::High.triggers_spec(sev) ==> FailOn::Medium.triggers_spec(sev),
        FailOn::Medium.triggers_spec(sev) ==> FailOn::Low.triggers_spec(sev),
        graver.place_spec() <= sev.place_spec() && level.triggers_spec(sev) ==> level.triggers_spec(
            graver,
        ),
        !level.triggers_spec(SeverityClass::Unknown),
{
}

/// What a run is asked to do.
#[derive(Debug, PartialEq, Eq)]
pub struct ImpactArgs {
    /// Print a `cargo-nextest` filter expression in place of the report.
    pub test: bool,
    /// Format of the report.
    pub format: Format,
    /// Revision to compare with.
    pub since: String,
    /// Root of the analysis; the working directory when absent.
    pub manifest_dir: Option<String>,
    /// Findings below this many hundredths of confidence are left out.
    pub confidence_min: i64,
    /// Severity from which on a finding makes the run fail.
    pub fail_on: Option<FailOn>,
    /// Ask `cargo-semver-checks`.
    pub semver_checks: bool,
    /// Ask `rust-analyzer`.
    pub rust_analyzer: bool,
    /// Character budget of the report; 0 for none.
    pub budget: usize,
    /// Print the implicated files in place of the report.
    pub context: bool,
    /// Features to activate.
    pub features: Vec<String>,
    /// Activate every feature.
    pub all_features: bool,
    /// Leave the default features out.
    pub no_default_features: bool,
    /// Ask `cargo-expand`.
    pub macro_expand: bool,
    /// Compare the run with runs without default features and with all
    /// features.
    pub feature_powerset: bool,
}

/// A finding reaches a fail level just where it is of that severity or of a
/// graver one.
pub proof fn levels_are_reached_from_above(sev: SeverityClass)
    ensures
        FailOn::High.triggers_spec(sev) <==> sev is High,
        FailOn::Medium.triggers_spec(sev) <==> sev is High || sev is Medium,
        FailOn::Low.triggers_spec(sev) <==> sev is High || sev is Medium || sev is Low,
{
}

/// A list reaches a fail level just where one of its parts does, and without a
/// level none does.
pub proof fn lists_reach_what_their_parts_reach(
    level: Option<FailOn>,
    a: Seq<FindingView>,
    b: Seq<FindingView>,
    f: FindingView,
)
    ensures
        level_reached(level, a + b) <==> level_reached(level, a) || level_reached(level, b),
        level_reached(level, seq![f]) <==> (level matches Some(g) && g.triggers_spec(f.severity)),
        !level_reached(level, Seq::empty()),
{
    if let Some(g) = level {
        let s = a + b;
        if level_reached(level, a) {
            let i = choose|i: int|
                0 <= i < a.len() && g.triggers_spec((#[trigger] a[i]).severity);
            assert(s[i] == a[i]);
        }
        if level_reached(level, b) {
            let i = choose|i: int|
                0 <= i < b.len() && g.triggers_spec((#[trigger] b[i]).severity);
            assert(s[a.len() + i] == b[i]);
        }
        if level_reached(level, s) {
            let i = choose|i: int|
                0 <= i < s.len() && g.triggers_spec((#[trigger] s[i]).severity);
            if i < a.len() {
                assert(a[i] == s[i]);
            } else {
                assert(b[i - a.len()] == s[i]);
            }
        }
        if g.triggers_spec(f.severity) {
            assert(seq![f][0] == f);
        }
    }
}

} // verus!
