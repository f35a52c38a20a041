//! What a run prints and how it ends.
use crate::analysis::{context_file_list, finding_paths, AnalysisReport, ReportView};
use crate::args::{level_reached, reaches_level, FailOn, ImpactArgs};
use crate::config::{apply_config, level_with_default, merged, Defaults};
use crate::format::{render_with_budget, rendered, Format};
use crate::nextest::{expression, nextest_filter, referenced_tests};
use crate::paths::path_set;
use crate::text::{flat, texts, wrap_each, wrapped};
use vstd::prelude::*;
use vstd::string::*;

verus! {

/// What is shown of a report: nothing without changed files.
pub open spec fn shown(report: ReportView) -> ReportView {
    if report.changed_files.len() == 0 {
        ReportView {
            changed_files: Seq::empty(),
            candidate_symbols: Seq::empty(),
            findings: Seq::empty(),
        }
    } else {
        report
    }
}

/// What a run prints: the implicated files, one on a line; a filter
/// expression; a note that nothing changed; or the report.
pub open spec fn run_output(args: ImpactArgs, report: ReportView) -> Seq<char> {
    let report = shown(report);
    if args.context {
        flat(
            wrapped(
                path_set(report.changed_files + finding_paths(report.findings)),
                ""@,
                "\n"@,
            ),
        )
    } else if args.test {
        expression(referenced_tests(report.findings)) + "\n"@
    } else if report.changed_files.len() == 0 && args.format == Format::Text {
        "cargo-impact: no Rust files changed relative to "@ + args.since@ + "\n"@
    } else {
        rendered(
            args.format,
            report.changed_files,
            report.candidate_symbols,
            report.findings,
            args.budget as nat,
        ) + "\n"@
    }
}

/// The exit code of a run: 1 when the report was printed and a finding reaches
/// the fail level, else 0.
pub open spec fn exit_code(args: ImpactArgs, report: ReportView) -> int {
    if !args.context && !args.test && level_reached(args.fail_on, shown(report).findings) {
        1
    } else {
        0
    }
}

fn print_shown(args: &ImpactArgs, report: &AnalysisReport) -> (r: (String, i32))
    requires
        shown(report@) == report@,
    ensures
        r.0@ == run_output(*args, report@),
        r.1 == exit_code(*args, report@),
{
    if args.context {
        return (wrap_each(&context_file_list(report), "", "\n"), 0);
    }
    if args.test {
        let mut out = nextest_filter(&report.findings);
        out.append("\n");
        return (out, 0);
    }
    proof {
        assert(texts(report.changed_files@).len() == report.changed_files@.len());
    }
    if report.changed_files.len() == 0 && args.format == Format::Text {
        let mut out = "cargo-impact: no Rust files changed relative to ".to_owned();
        out.append(args.since.as_str());
        out.append("\n");
        return (out, 0);
    }
    let mut out = render_with_budget(
        args.format,
        &report.changed_files,
        &report.candidate_symbols,
        &report.findings,
        args.budget,
    );
    out.append("\n");
    if reaches_level(args.fail_on, &report.findings) {
        (out, 1)
    } else {
        (out, 0)
    }
}

/// What a run prints, and its exit code.
pub fn run(args: &ImpactArgs, report: &AnalysisReport) -> (r: (String, i32))
    ensures
        r.0@ == run_output(*args, report@),
        r.1 == exit_code(*args, report@),
{
    if report.changed_files.len() == 0 {
        let nothing = AnalysisReport {
            changed_files: Vec::new(),
            candidate_symbols: Vec::new(),
            findings: Vec::new(),
        };
        proof {
            assert(nothing@ =~= shown(report@));
        }
        return print_shown(args, &nothing);
    }
    print_shown(args, report)
}

/// What a run prints, and its exit code, once a project's defaults are filled
/// in.
pub fn run_with_defaults(defaults: &Defaults, args: ImpactArgs, report: &AnalysisReport) -> (r: (
    String,
    i32,
))
    ensures
        forall|m: ImpactArgs| #[trigger]
            merged(args, *defaults, m) ==> r.0@ == run_output(m, report@) && r.1 == exit_code(
                m,
                report@,
            ),
{
    let mut m = args;
    apply_config(defaults, &mut m);
    run(&m, report)
}

/// The fail level that a project's defaults name decides on the exit code as if
/// the run had set it, and on nothing where the run sets its own.
pub proof fn default_levels_count_like_set_ones(
    args: ImpactArgs,
    defaults: Defaults,
    m: ImpactArgs,
    report: ReportView,
    level: Option<FailOn>,
)
    requires
        merged(args, defaults, m),
        level == level_with_default(args.fail_on, defaults.fail_on),
    ensures
        exit_code(m, report) == exit_code(ImpactArgs { fail_on: level, ..args }, report),
        args.fail_on is Some ==> exit_code(m, report) == exit_code(args, report),
{
}

/// Without findings a run succeeds, whatever the fail level.
pub proof fn clean_runs_succeed(args: ImpactArgs, report: ReportView)
    requires
        report.findings.len() == 0,
    ensures
        exit_code(args, report) == 0,
{
}

/// A run fails just where it prints a report on changed files with a finding
/// that reaches the fail level.
pub proof fn runs_fail_on_grave_findings(args: ImpactArgs, report: ReportView)
    ensures
        exit_code(args, report) == 0 || exit_code(args, report) == 1,
        exit_code(args, report) == 1 <==> !args.context && !args.test
            && report.changed_files.len() > 0 && (args.fail_on matches Some(g) && exists|i: int|
            0 <= i < report.findings.len() && g.triggers_spec(
                (#[trigger] report.findings[i]).severity,
            )),
{
}

/// A run for the implicated files prints the changed files and the files of the
/// findings, each on a line of its own, in path order, whatever the format.
pub proof fn context_runs_print_files(args: ImpactArgs, report: ReportView, p: Seq<char>)
    requires
        args.context,
        report.changed_files.len() > 0,
    ensures
        exists|files: Seq<Seq<char>>|
            run_output(args, report) == #[trigger] flat(wrapped(files, ""@, "\n"@))
                && crate::order::strictly_in_order(files, crate::paths::path_order()) && (
            report.changed_files.contains(p) || finding_paths(report.findings).contains(p)
                ==> exists|i: int|
                0 <= i < files.len() && crate::paths::same_path(#[trigger] files[i], p)) && (
            files.contains(p) ==> report.changed_files.contains(p) || finding_paths(
                report.findings,
            ).contains(p)),
{
    let given = report.changed_files + finding_paths(report.findings);
    let files = path_set(given);
    crate::paths::path_set_is_exact(given);
    crate::scan::lemma_contains_add(report.changed_files, finding_paths(report.findings), p);
    assert(run_output(args, report) == flat(wrapped(files, ""@, "\n"@)));
    if given.contains(p) {
        let i = choose|i: int|
            0 <= i < files.len() && !crate::paths::path_lt(#[trigger] files[i], p)
                && !crate::paths::path_lt(p, files[i]);
        crate::paths::unordered_paths_are_the_same(files[i], p);
        assert(crate::paths::same_path(files[i], p));
    }
}

/// Without changed files nothing else of a report shows.
pub proof fn unchanged_runs_show_nothing(args: ImpactArgs, a: ReportView, b: ReportView)
    requires
        a.changed_files.len() == 0,
        b.changed_files.len() == 0,
    ensures
        run_output(args, a) == run_output(args, b),
        exit_code(args, a) == 0,
        args.context ==> run_output(args, a).len() == 0,
        !args.context && args.test ==> run_output(args, a) == "\n"@,
        !args.context && !args.test && args.format == Format::Text ==> run_output(args, a)
            == "cargo-impact: no Rust files changed relative to "@ + args.since@ + "\n"@,
{
    let none = shown(a);
    assert(none =~= shown(b));
    let given = none.changed_files + finding_paths(none.findings);
    if args.context {
        crate::paths::path_set_is_exact(given);
        let files = path_set(given);
        if files.len() > 0 {
            assert(files.contains(files[0]));
        }
        assert(wrapped(files, ""@, "\n"@).len() == 0);
    } else if args.test {
        crate::nextest::findings_of_no_test_name_none(none.findings);
        assert(expression(Seq::<Seq<char>>::empty()).len() == 0);
        assert(expression(referenced_tests(none.findings)) + "\n"@ =~= "\n"@);
    }
}

/// Where neither the files nor a filter are asked for, a run with changed files
/// prints its whole report in the format asked for.
pub proof fn runs_print_their_report(args: ImpactArgs, report: ReportView)
    requires
        !args.context,
        !args.test,
        report.changed_files.len() > 0,
    ensures
        run_output(args, report) == rendered(
            args.format,
            report.changed_files,
            report.candidate_symbols,
            report.findings,
            args.budget as nat,
        ) + "\n"@,
{
}

} // verus!
