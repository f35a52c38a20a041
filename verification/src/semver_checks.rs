//! Public-API breakage as `cargo-semver-checks` reports it.
use crate::finding::{
    finding_views, new_finding, Finding, FindingKind, FindingView, KindView, Tier,
};
use crate::text::{
    begins, lines, lines_of, strip_prefix, texts, trim, trim_end_matches, trimmed, without_suffix,
};
use crate::tools::{installed, plan, tool_plan, which, ToolOutput, ToolPlan};
use vstd::prelude::*;
use vstd::string::*;

verus! {

/// The program that is looked for.
pub fn tool_bin() -> (r: &'static str)
    ensures
        r@ == "cargo-semver-checks"@,
{
    "cargo-semver-checks"
}

/// Whether some directory of the search path holds the program, given for each
/// directory whether the candidate there is a file.
pub fn is_installed(dirs: &Vec<String>, present: &Vec<bool>) -> (r: bool)
    ensures
        r == installed(dirs@, present@),
{
    match which(tool_bin(), dirs, present) {
        Some(_) => true,
        None => false,
    }
}

/// Standard output, then standard error, with a line feed between the two when
/// neither is empty.
pub open spec fn both_streams(stdout: Seq<char>, stderr: Seq<char>) -> Seq<char> {
    if stdout.len() > 0 && stderr.len() > 0 {
        stdout + "\n"@ + stderr
    } else {
        stdout + stderr
    }
}

/// Both streams of a finished run as one text.
pub fn combined(output: &ToolOutput) -> (r: String)
    ensures
        r@ == both_streams(output.stdout@, output.stderr@),
{
    let mut s = output.stdout.clone();
    if !output.stdout.as_str().is_empty() && !output.stderr.as_str().is_empty() {
        s.append("\n");
    }
    s.append(output.stderr.as_str());
    s
}

/// The lint that a line of the report names as failing.
pub open spec fn failing_lint(line: Seq<char>) -> Option<Seq<char>> {
    let t = trimmed(line);
    if begins(t, "FAIL "@) {
        Some(trimmed(t.skip("FAIL "@.len() as int)))
    } else if begins(t, "--- failure "@) {
        Some(trimmed(without_suffix(t.skip("--- failure "@.len() as int), ": ---"@)))
    } else {
        None
    }
}

/// The lint of the first line that names one, from line `from` on.
pub open spec fn first_lint(lines: Seq<Seq<char>>, from: int) -> Option<Seq<char>>
    decreases lines.len() - from,
{
    if from < 0 || from >= lines.len() {
        None
    } else if failing_lint(lines[from]) is Some {
        failing_lint(lines[from])
    } else {
        first_lint(lines, from + 1)
    }
}

/// The first lint that a report names as failing.
pub fn first_failing_lint(combined: &str) -> (r: Option<String>)
    ensures
        match r {
            Some(l) => first_lint(lines_of(combined@), 0) == Some(l@),
            None => first_lint(lines_of(combined@), 0) is None,
        },
{
    let all = lines(combined);
    let ghost views = lines_of(combined@);
    let mut i: usize = 0;
    while i < all.len()
        invariant
            i <= all@.len(),
            texts(all@) == views,
            views == lines_of(combined@),
            first_lint(views, 0) == first_lint(views, i as int),
        decreases all@.len() - i,
    {
        proof {
            assert(views[i as int] == all@[i as int]@);
        }
        let t = trim(all[i].as_str());
        match strip_prefix(t.as_str(), "FAIL ") {
            Some(rest) => {
                return Some(trim(rest.as_str()));
            },
            None => {},
        }
        match strip_prefix(t.as_str(), "--- failure ") {
            Some(rest) => {
                return Some(trim(trim_end_matches(rest.as_str(), ": ---").as_str()));
            },
            None => {},
        }
        i = i + 1;
    }
    None
}

/// One-line summary of a failing report.
pub open spec fn semver_evidence(details: Seq<char>) -> Seq<char> {
    match first_lint(lines_of(details), 0) {
        Some(l) => "cargo-semver-checks: "@ + l,
        None => "cargo-semver-checks reports breaking public-API changes"@,
    }
}

/// The finding for a failing report.
pub open spec fn semver_finding(combined: Seq<char>) -> FindingView {
    let details = trimmed(combined);
    FindingView {
        suggested_action: Some("cargo semver-checks check-release  # for full detail"@),
        ..new_finding(
            ""@,
            Tier::Likely,
            95,
            KindView::SemverCheck { level: "breaking"@, details },
            semver_evidence(details),
        )
    }
}

/// The findings of a run: none when it succeeded, one when it failed.
pub open spec fn semver_findings(success: bool, combined: Seq<char>) -> Seq<FindingView> {
    if success {
        Seq::empty()
    } else {
        seq![semver_finding(combined)]
    }
}

/// The findings of a run.
pub fn parse_output(success: bool, combined: &str) -> (r: Vec<Finding>)
    ensures
        finding_views(r@) == semver_findings(success, combined@),
{
    let mut out: Vec<Finding> = Vec::new();
    if success {
        proof {
            assert(finding_views(out@) =~= Seq::empty());
        }
        return out;
    }
    let details = trim(combined);
    let evidence = match first_failing_lint(details.as_str()) {
        Some(lint) => {
            let mut e = "cargo-semver-checks: ".to_owned();
            e.append(lint.as_str());
            e
        },
        None => "cargo-semver-checks reports breaking public-API changes".to_owned(),
    };
    let kind = FindingKind::SemverCheck { level: "breaking".to_owned(), details };
    let f = Finding::new("", Tier::Likely, 95, kind, evidence.as_str()).with_suggested_action(
        "cargo semver-checks check-release  # for full detail",
    );
    out.push(f);
    proof {
        assert(finding_views(out@) =~= seq![f@]);
    }
    out
}

/// The findings of an optional run: none unless it was asked for, could run
/// and ended.
pub open spec fn semver_run(
    enabled: bool,
    installed: bool,
    outcome: Option<ToolOutput>,
) -> Seq<FindingView> {
    match outcome {
        Some(o) if tool_plan(enabled, installed) == ToolPlan::Invoke => semver_findings(
            o.success,
            both_streams(o.stdout@, o.stderr@),
        ),
        _ => Seq::empty(),
    }
}

/// The findings of an optional run; `outcome` is `None` when the program did
/// not start.
pub fn run(enabled: bool, installed: bool, outcome: &Option<ToolOutput>) -> (r: Vec<Finding>)
    ensures
        finding_views(r@) == semver_run(enabled, installed, *outcome),
{
    let none: Vec<Finding> = Vec::new();
    proof {
        assert(finding_views(none@) =~= Seq::empty());
    }
    match plan(enabled, installed) {
        ToolPlan::Invoke => match outcome {
            Some(o) => parse_output(o.success, combined(o).as_str()),
            None => none,
        },
        _ => none,
    }
}

/// A line names a failing lint just where, without white space round it, it
/// begins with one of the two marks.
pub proof fn marked_lines_name_their_lint(line: Seq<char>, name: Seq<char>)
    ensures
        trimmed(line) == "FAIL "@ + name ==> failing_lint(line) == Some(trimmed(name)),
        trimmed(line) == "--- failure "@ + name && !": ---"@.is_suffix_of(name) ==> failing_lint(
            line,
        ) == Some(trimmed(name)),
        trimmed(line) == "--- failure "@ + name + ": ---"@ && !": ---"@.is_suffix_of(name)
            ==> failing_lint(line) == Some(trimmed(name)),
        !"FAIL "@.is_prefix_of(trimmed(line)) && !"--- failure "@.is_prefix_of(trimmed(line))
            ==> failing_lint(line) is None,
{
    let t = trimmed(line);
    reveal_strlit("FAIL ");
    reveal_strlit("--- failure ");
    reveal_strlit(": ---");
    let one = "FAIL "@;
    let two = "--- failure "@;
    let end = ": ---"@;
    assert(one.len() == 5 && one[0] == 'F');
    assert(two.len() == 12 && two[0] == '-');
    assert(end.len() == 5);
    assert(begins(t, one) ==> one.is_prefix_of(t)) by {
        if begins(t, one) {
            assert(t.subrange(0, 5) =~= one);
        }
    }
    assert(begins(t, two) ==> two.is_prefix_of(t)) by {
        if begins(t, two) {
            assert(t.subrange(0, 12) =~= two);
        }
    }
    if t == one + name {
        assert(t.subrange(0, 5) =~= one);
        assert(t.skip(5) =~= name);
    }
    if !end.is_suffix_of(name) {
        if crate::text::occurs_at(name, end, name.len() - end.len()) {
            assert(name.subrange(name.len() - 5, name.len() as int) =~= end);
            assert(false);
        }
        assert(without_suffix(name, end) == name);
        if t == two + name {
            assert(t[0] == '-');
            assert(t.subrange(0, 12) =~= two);
            assert(t.skip(12) =~= name);
        }
        if t == two + name + end {
            assert(t[0] == '-');
            assert(t.subrange(0, 12) =~= two);
            let rest = name + end;
            assert(t.skip(12) =~= rest);
            assert(rest.subrange(rest.len() - 5, rest.len() as int) =~= end);
            assert(rest.take(rest.len() - 5) =~= name);
            assert(without_suffix(rest, end) == without_suffix(name, end));
        }
    }
}

/// The first line that names a lint counts, and no later one.
pub proof fn first_named_lint_counts(a: Seq<Seq<char>>, b: Seq<Seq<char>>, line: Seq<char>, from: int)
    requires
        0 <= from <= a.len(),
    ensures
        first_lint(a + b, from) == (if first_lint(a, from) is Some {
            first_lint(a, from)
        } else {
            first_lint(b, 0)
        }),
        first_lint(seq![line], 0) == failing_lint(line),
    decreases a.len() - from,
{
    assert(seq![line][0] == line);
    assert(first_lint(seq![line], 1) is None);
    if from < a.len() {
        assert((a + b)[from] == a[from]);
        first_named_lint_counts(a, b, line, from + 1);
    } else {
        lemma_first_lint_shift(a, b, 0);
    }
}

proof fn lemma_first_lint_shift(a: Seq<Seq<char>>, b: Seq<Seq<char>>, k: int)
    requires
        0 <= k <= b.len(),
    ensures
        first_lint(a + b, a.len() + k) == first_lint(b, k),
    decreases b.len() - k,
{
    if k < b.len() {
        assert((a + b)[a.len() + k] == b[k]);
        lemma_first_lint_shift(a, b, k + 1);
    }
}

/// A run that was asked for, could start and failed gives one finding, of a
/// breaking change; every other run gives none.
pub proof fn failed_runs_give_one_finding(
    enabled: bool,
    installed: bool,
    outcome: Option<ToolOutput>,
)
    ensures
        ({
            let r = semver_run(enabled, installed, outcome);
            &&& r.len() <= 1
            &&& r.len() == 1 <==> enabled && installed && (outcome matches Some(o) && !o.success)
            &&& r.len() == 1 ==> {
                let f = r[0];
                &&& f.severity is High
                &&& f.tier is Likely
                &&& f.confidence == 95
                &&& f.suggested_action is Some
                &&& f.kind == KindView::SemverCheck {
                    level: "breaking"@,
                    details: trimmed(both_streams(outcome->0.stdout@, outcome->0.stderr@)),
                }
            }
        }),
{
}

/// Both streams of a run are read, the standard output first.
pub proof fn both_streams_are_read(out: Seq<char>, err: Seq<char>)
    ensures
        out.is_prefix_of(both_streams(out, err)),
        err.is_suffix_of(both_streams(out, err)),
        both_streams(out, err).len() == out.len() + err.len() + (if out.len() > 0 && err.len() > 0 {
            1nat
        } else {
            0nat
        }),
{
    reveal_strlit("\n");
    let both = both_streams(out, err);
    assert(both.subrange(0, out.len() as int) =~= out);
    assert(both.subrange(both.len() - err.len(), both.len() as int) =~= err);
}

/// The evidence of a failed run names the first failing lint, where there is
/// one.
pub proof fn evidence_names_the_lint(details: Seq<char>)
    ensures
        first_lint(lines_of(details), 0) matches Some(l) ==> l.is_suffix_of(
            semver_evidence(details),
        ),
        first_lint(lines_of(details), 0) is None ==> semver_evidence(details)
            == "cargo-semver-checks reports breaking public-API changes"@,
{
    if let Some(l) = first_lint(lines_of(details), 0) {
        let e = semver_evidence(details);
        assert(e.subrange(e.len() - l.len(), e.len() as int) =~= l);
    }
}

} // verus!
