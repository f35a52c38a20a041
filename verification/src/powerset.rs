//! Runs under several feature sets, put together as one report.
use crate::analysis::{
    analysis, analyze_inner, changed_symbols, names_of, symbol_names, symbols_of, AnalysisReport,
    Checks, ReportView, Workspace, WorkspaceView,
};
use crate::args::ImpactArgs;
use crate::cfg::FeaturesView;
use crate::diff::opt_str;
use crate::features::{resolve_features, run_features, run_features_are_unique, ManifestError};
use crate::finding::{finding_views, Finding, FindingView};
use crate::macro_expand::{expansion_plan, plan_expansion};
use crate::ranking::{
    lemma_ranked_contains, rank_findings, ranked, report_order, report_order_is_weak,
};
use crate::text::{same, texts};
use crate::tools::ToolPlan;
use crate::traits::{changed_trait_names, trait_names};
use vstd::prelude::*;
use vstd::string::*;

verus! {

/// Whether a finding has the given id.
pub open spec fn has_id(s: Seq<FindingView>, id: Seq<char>) -> bool {
    exists|i: int| 0 <= i < s.len() && (#[trigger] s[i]).id == id
}

/// A finding that only the named feature set shows.
pub open spec fn annotated(f: FindingView, label: Seq<char>) -> FindingView {
    FindingView { evidence: f.evidence + " (only visible with "@ + label + ")"@, ..f }
}

/// `base`, then the findings of `extra` whose ids are new, annotated.
pub open spec fn with_extra(
    base: Seq<FindingView>,
    extra: Seq<FindingView>,
    label: Seq<char>,
) -> Seq<FindingView>
    decreases extra.len(),
{
    if extra.len() == 0 {
        base
    } else {
        let rest = with_extra(base, extra.drop_last(), label);
        if has_id(rest, extra.last().id) {
            rest
        } else {
            rest.push(annotated(extra.last(), label))
        }
    }
}

/// The findings of the baseline, then those that only a run without default
/// features shows, then those that only a run with all features shows.
pub open spec fn all_passes(
    baseline: Seq<FindingView>,
    nodef: Seq<FindingView>,
    all: Seq<FindingView>,
) -> Seq<FindingView> {
    with_extra(
        with_extra(baseline, nodef, "--no-default-features"@),
        all,
        "--all-features"@,
    )
}

/// Three reports as one: files and symbols of the baseline, and the findings
/// of all passes in order.
pub open spec fn merged(baseline: ReportView, nodef: ReportView, all: ReportView) -> ReportView {
    ReportView {
        changed_files: baseline.changed_files,
        candidate_symbols: baseline.candidate_symbols,
        findings: ranked(all_passes(baseline.findings, nodef.findings, all.findings)),
    }
}

fn knows_id(findings: &Vec<Finding>, id: &str) -> (r: bool)
    ensures
        r == has_id(finding_views(findings@), id@),
{
    let ghost s = finding_views(findings@);
    let mut i: usize = 0;
    while i < findings.len()
        invariant
            i <= findings@.len(),
            s == finding_views(findings@),
            forall|j: int| 0 <= j < i ==> (#[trigger] s[j]).id != id@,
        decreases findings@.len() - i,
    {
        proof {
            assert(s[i as int] == findings@[i as int]@);
        }
        if same(findings[i].id.as_str(), id) {
            return true;
        }
        i = i + 1;
    }
    false
}

fn add_extra(base: &mut Vec<Finding>, extra: Vec<Finding>, label: &str)
    ensures
        finding_views(final(base)@) == with_extra(
            finding_views(old(base)@),
            finding_views(extra@),
            label@,
        ),
{
    let ghost start = finding_views(base@);
    let ghost all = extra@;
    let ghost s = finding_views(extra@);
    let n: usize = extra.len();
    let mut back = crate::order::reversed(extra);
    let mut i: usize = 0;
    while i < n
        invariant
            i <= n,
            n == all.len(),
            s == finding_views(all),
            back@.len() == n - i,
            forall|j: int| 0 <= j < back@.len() ==> #[trigger] back@[j] == all[all.len() - 1 - j],
            finding_views(base@) == with_extra(start, s.take(i as int), label@),
        decreases n - i,
    {
        let f = back.pop().unwrap();
        proof {
            assert(s.take(i + 1).drop_last() =~= s.take(i as int));
            assert(s.take(i + 1).last() == f@);
        }
        if !knows_id(base, f.id.as_str()) {
            let mut evidence = f.evidence.clone();
            evidence.append(" (only visible with ");
            evidence.append(label);
            evidence.append(")");
            let g = Finding {
                id: f.id,
                severity: f.severity,
                tier: f.tier,
                confidence: f.confidence,
                kind: f.kind,
                evidence,
                suggested_action: f.suggested_action,
            };
            proof {
                assert(g@ =~= annotated(f@, label@));
                assert(finding_views(base@.push(g)) =~= finding_views(base@).push(g@));
            }
            base.push(g);
        }
        i = i + 1;
    }
    proof {
        assert(s.take(n as int) =~= s);
    }
}

/// Puts three reports together. The findings of the baseline stay as they are;
/// findings that only another pass shows are added with a note on the feature
/// set that shows them. Findings with the same id count once.
pub fn merge_powerset_reports(
    baseline: AnalysisReport,
    nodef: AnalysisReport,
    all: AnalysisReport,
) -> (r: AnalysisReport)
    ensures
        r@ == merged(baseline@, nodef@, all@),
{
    let mut combined = baseline.findings;
    add_extra(&mut combined, nodef.findings, "--no-default-features");
    add_extra(&mut combined, all.findings, "--all-features");
    AnalysisReport {
        changed_files: baseline.changed_files,
        candidate_symbols: baseline.candidate_symbols,
        findings: rank_findings(combined),
    }
}

// ---------------------------------------------------------------------------
// Whole runs
// ---------------------------------------------------------------------------

/// The checks that a run asks for.
pub open spec fn checks_spec(args: ImpactArgs) -> Checks {
    Checks {
        semver: args.semver_checks,
        analyzer: args.rust_analyzer,
        expand: args.macro_expand,
        confidence_min: args.confidence_min,
    }
}

/// The checks that a run asks for.
pub fn checks_of(args: &ImpactArgs) -> (r: Checks)
    ensures
        r == checks_spec(*args),
{
    Checks {
        semver: args.semver_checks,
        analyzer: args.rust_analyzer,
        expand: args.macro_expand,
        confidence_min: args.confidence_min,
    }
}

/// Whether `r` is the report on a workspace under the features that `flags`
/// and the manifest turn on.
pub open spec fn pass_report(
    w: WorkspaceView,
    checks: Checks,
    manifest: Option<Seq<char>>,
    flags: Seq<Seq<char>>,
    no_default: bool,
    all_features: bool,
    r: ReportView,
) -> bool {
    exists|f: FeaturesView| #[trigger]
        run_features(manifest, flags, no_default, all_features, Some(f)) && r == analysis(
            w,
            checks,
            f,
        )
}

/// Whether `r` is the report of a run: the report under the features asked
/// for, or, where the feature sets are to be compared, that report together
/// with those of the other two passes.
pub open spec fn run_report(
    w: WorkspaceView,
    args: ImpactArgs,
    manifest: Option<Seq<char>>,
    r: ReportView,
) -> bool {
    let checks = checks_spec(args);
    let none = Seq::<Seq<char>>::empty();
    if !args.feature_powerset {
        pass_report(
            w,
            checks,
            manifest,
            texts(args.features@),
            args.no_default_features,
            args.all_features,
            r,
        )
    } else {
        exists|b: ReportView, n: ReportView, a: ReportView|
            {
                &&& #[trigger] pass_report(
                    w,
                    checks,
                    manifest,
                    texts(args.features@),
                    args.no_default_features,
                    args.all_features,
                    b,
                )
                &&& #[trigger] pass_report(w, checks, manifest, none, true, false, n)
                &&& #[trigger] pass_report(w, checks, manifest, none, false, true, a)
                &&& r == merged(b, n, a)
            }
    }
}

/// One pass over a workspace.
pub fn analyze_pass(
    w: &Workspace,
    checks: Checks,
    manifest: Option<&str>,
    flags: &Vec<String>,
    no_default: bool,
    all_features: bool,
) -> (r: Result<AnalysisReport, ManifestError>)
    ensures
        match r {
            Ok(report) => pass_report(
                w@,
                checks,
                opt_str(manifest),
                texts(flags@),
                no_default,
                all_features,
                report@,
            ),
            Err(e) => run_features(opt_str(manifest), texts(flags@), no_default, all_features, None),
        },
{
    match resolve_features(manifest, flags, no_default, all_features) {
        Ok(features) => {
            let report = analyze_inner(w, checks, &features);
            proof {
                assert(run_features(
                    opt_str(manifest),
                    texts(flags@),
                    no_default,
                    all_features,
                    Some(features@),
                ));
            }
            Ok(report)
        },
        Err(e) => Err(e),
    }
}

/// The report of a run. It fails exactly when there is a manifest that is no
/// TOML document.
pub fn analyze(w: &Workspace, args: &ImpactArgs, manifest: Option<&str>) -> (r: Result<
    AnalysisReport,
    ManifestError,
>)
    ensures
        match r {
            Ok(report) => run_report(w@, *args, opt_str(manifest), report@),
            Err(e) => manifest is Some && crate::features::document_table(
                manifest->0@,
                "features"@,
            ) is None,
        },
        manifest is None ==> r is Ok,
        manifest is Some && crate::features::document_table(manifest->0@, "features"@) is None
            ==> r is Err,
{
    let checks = checks_of(args);
    let baseline = match analyze_pass(
        w,
        checks,
        manifest,
        &args.features,
        args.no_default_features,
        args.all_features,
    ) {
        Ok(b) => b,
        Err(e) => {
            return Err(e);
        },
    };
    if !args.feature_powerset {
        return Ok(baseline);
    }
    let none: Vec<String> = Vec::new();
    proof {
        assert(texts(none@) =~= Seq::empty());
    }
    let nodef = match analyze_pass(w, checks, manifest, &none, true, false) {
        Ok(n) => n,
        Err(e) => {
            return Err(e);
        },
    };
    let all = match analyze_pass(w, checks, manifest, &none, false, true) {
        Ok(a) => a,
        Err(e) => {
            return Err(e);
        },
    };
    Ok(merge_powerset_reports(baseline, nodef, all))
}

// ---------------------------------------------------------------------------
// Passes and expansion
// ---------------------------------------------------------------------------

/// The features that a pass goes by: those that are named, whether the default
/// ones are left out, and whether all are taken.
#[derive(Debug, PartialEq, Eq)]
pub struct PassSetting {
    pub features: Vec<String>,
    pub no_default: bool,
    pub all_features: bool,
}

/// A [`PassSetting`] as plain data.
#[verifier::ext_equal]
pub struct SettingView {
    pub features: Seq<Seq<char>>,
    pub no_default: bool,
    pub all_features: bool,
}

impl View for PassSetting {
    type V = SettingView;

    open spec fn view(&self) -> SettingView {
        SettingView {
            features: texts(self.features@),
            no_default: self.no_default,
            all_features: self.all_features,
        }
    }
}

/// The settings of the passes of a run: what it asks for and, where the feature
/// sets are to be compared, no default features and all features.
pub open spec fn run_settings(args: ImpactArgs) -> Seq<SettingView> {
    let own = SettingView {
        features: texts(args.features@),
        no_default: args.no_default_features,
        all_features: args.all_features,
    };
    let bare = SettingView { features: Seq::empty(), no_default: true, all_features: false };
    let full = SettingView { features: Seq::empty(), no_default: false, all_features: true };
    if args.feature_powerset {
        seq![own, bare, full]
    } else {
        seq![own]
    }
}

/// The settings of the passes of a run.
pub fn pass_settings(args: &ImpactArgs) -> (r: Vec<PassSetting>)
    ensures
        r@.map_values(|s: PassSetting| s@) == run_settings(*args),
{
    let mut out: Vec<PassSetting> = Vec::new();
    out.push(
        PassSetting {
            features: crate::finding::clone_texts(&args.features),
            no_default: args.no_default_features,
            all_features: args.all_features,
        },
    );
    if args.feature_powerset {
        out.push(PassSetting { features: Vec::new(), no_default: true, all_features: false });
        out.push(PassSetting { features: Vec::new(), no_default: false, all_features: true });
        proof {
            assert(texts(out@[1].features@) =~= Seq::empty());
            assert(texts(out@[2].features@) =~= Seq::empty());
        }
    }
    proof {
        assert(out@.map_values(|s: PassSetting| s@) =~= run_settings(*args));
    }
    out
}

/// What a pass under some features does about expansion.
pub open spec fn plan_under(w: WorkspaceView, enabled: bool, f: FeaturesView) -> ToolPlan {
    let symbols = symbols_of(w.changed, f);
    expansion_plan(enabled, trait_names(symbols), symbol_names(symbols), w.expand_installed)
}

/// Whether `p` is what a pass does about expansion.
pub open spec fn pass_plan(
    w: WorkspaceView,
    enabled: bool,
    manifest: Option<Seq<char>>,
    setting: SettingView,
    p: ToolPlan,
) -> bool {
    exists|f: FeaturesView| #[trigger]
        run_features(
            manifest,
            setting.features,
            setting.no_default,
            setting.all_features,
            Some(f),
        ) && p == plan_under(w, enabled, f)
}

/// What a run does about expansion, given what its passes do: it expands when
/// some pass does, and lacks the program when some pass lacks it.
pub open spec fn overall_plan(plans: Seq<ToolPlan>) -> ToolPlan {
    if plans.contains(ToolPlan::Invoke) {
        ToolPlan::Invoke
    } else if plans.contains(ToolPlan::Missing) {
        ToolPlan::Missing
    } else {
        ToolPlan::Skip
    }
}

/// Whether `plans` are what the passes do about expansion, one for each.
pub open spec fn plans_of_passes(
    w: WorkspaceView,
    enabled: bool,
    manifest: Option<Seq<char>>,
    settings: Seq<SettingView>,
    plans: Seq<ToolPlan>,
) -> bool {
    plans.len() == settings.len() && forall|i: int|
        0 <= i < plans.len() ==> pass_plan(w, enabled, manifest, settings[i], #[trigger] plans[i])
}

/// What a run does about expansion. It fails exactly when there is a manifest
/// that is no TOML document.
pub fn wants_expansion(w: &Workspace, args: &ImpactArgs, manifest: Option<&str>) -> (r: Result<
    ToolPlan,
    ManifestError,
>)
    ensures
        match r {
            Ok(p) => exists|plans: Seq<ToolPlan>| #[trigger]
                plans_of_passes(
                    w@,
                    args.macro_expand,
                    opt_str(manifest),
                    run_settings(*args),
                    plans,
                ) && p == overall_plan(plans),
            Err(e) => manifest is Some && crate::features::document_table(
                manifest->0@,
                "features"@,
            ) is None,
        },
        manifest is None ==> r is Ok,
        manifest is Some && crate::features::document_table(manifest->0@, "features"@) is None
            ==> r is Err,
{
    let settings = pass_settings(args);
    let ghost all = run_settings(*args);
    let mut plans: Vec<ToolPlan> = Vec::new();
    let mut needed: bool = false;
    let mut missing: bool = false;
    let mut i: usize = 0;
    proof {
        assert(all.len() == settings@.len());
    }
    while i < settings.len()
        invariant
            i <= settings@.len(),
            plans@.len() == i,
            all == settings@.map_values(|s: PassSetting| s@),
            needed == plans@.contains(ToolPlan::Invoke),
            missing == plans@.contains(ToolPlan::Missing),
            i > 0 && manifest is Some ==> crate::features::document_table(
                manifest->0@,
                "features"@,
            ) is Some,
            forall|j: int|
                0 <= j < i ==> pass_plan(
                    w@,
                    args.macro_expand,
                    opt_str(manifest),
                    all[j],
                    #[trigger] plans@[j],
                ),
        decreases settings@.len() - i,
    {
        let s = &settings[i];
        let features = match resolve_features(manifest, &s.features, s.no_default, s.all_features) {
            Ok(f) => f,
            Err(e) => {
                return Err(e);
            },
        };
        let symbols = changed_symbols(&w.changed, &features);
        let p = plan_expansion(
            args.macro_expand,
            &changed_trait_names(&symbols),
            &names_of(&symbols),
            w.expand_installed,
        );
        let ghost before = plans@;
        plans.push(p);
        proof {
            assert(all[i as int] == s@);
            assert(run_features(
                opt_str(manifest),
                all[i as int].features,
                all[i as int].no_default,
                all[i as int].all_features,
                Some(features@),
            ));
            assert(p == plan_under(w@, args.macro_expand, features@));
            assert(pass_plan(w@, args.macro_expand, opt_str(manifest), all[i as int], p));
            lemma_one_more_plan(before, p, ToolPlan::Invoke);
            lemma_one_more_plan(before, p, ToolPlan::Missing);
        }
        match p {
            ToolPlan::Invoke => {
                needed = true;
            },
            ToolPlan::Missing => {
                missing = true;
            },
            ToolPlan::Skip => {},
        }
        i = i + 1;
    }
    proof {
        assert(plans_of_passes(w@, args.macro_expand, opt_str(manifest), all, plans@));
    }
    if needed {
        Ok(ToolPlan::Invoke)
    } else if missing {
        Ok(ToolPlan::Missing)
    } else {
        Ok(ToolPlan::Skip)
    }
}

proof fn lemma_one_more_plan(s: Seq<ToolPlan>, p: ToolPlan, q: ToolPlan)
    ensures
        s.push(p).contains(q) <==> s.contains(q) || p == q,
{
    let r = s.push(p);
    if s.contains(q) {
        let i = s.index_of(q);
        assert(r[i] == q);
    }
    if p == q {
        assert(r[s.len() as int] == q);
    }
    if r.contains(q) {
        let i = r.index_of(q);
        if i < s.len() {
            assert(s[i] == q);
        }
    }
}

// ---------------------------------------------------------------------------
// Laws
// ---------------------------------------------------------------------------

/// No two findings have the same id.
pub open spec fn distinct_ids(s: Seq<FindingView>) -> bool {
    forall|i: int, j: int| #![trigger s[i], s[j]] 0 <= i < j < s.len() ==> s[i].id != s[j].id
}

/// What adding the findings of another pass does: the findings before stay as
/// they are, every id of the pass is there, what is added is an annotated
/// finding of the pass whose id was not there, and ids stay distinct.
pub proof fn extra_findings_are_added_once(
    base: Seq<FindingView>,
    extra: Seq<FindingView>,
    label: Seq<char>,
)
    ensures
        with_extra(base, extra, label).len() >= base.len(),
        with_extra(base, extra, label).take(base.len() as int) == base,
        forall|i: int| 0 <= i < extra.len() ==> has_id(with_extra(base, extra, label), (#[trigger]
        extra[i]).id),
        forall|i: int|
            base.len() <= i < with_extra(base, extra, label).len() ==> is_new(
                base,
                extra,
                label,
                #[trigger] with_extra(base, extra, label)[i],
            ),
        distinct_ids(base) ==> distinct_ids(with_extra(base, extra, label)),
    decreases extra.len(),
{
    let r = with_extra(base, extra, label);
    if extra.len() == 0 {
        assert(r.take(base.len() as int) =~= base);
    } else {
        let head = extra.drop_last();
        let rest = with_extra(base, head, label);
        let last = extra.last();
        extra_findings_are_added_once(base, head, label);
        assert(r.take(base.len() as int) =~= rest.take(base.len() as int));
        if has_id(rest, last.id) {
            assert(r == rest);
        } else {
            assert(r == rest.push(annotated(last, label)));
            assert(r[rest.len() as int].id == last.id);
            assert(!has_id(base, last.id)) by {
                if has_id(base, last.id) {
                    let k = choose|k: int| 0 <= k < base.len() && (#[trigger] base[k]).id == last.id;
                    assert(rest.take(base.len() as int)[k] == rest[k]);
                    assert(rest[k].id == last.id);
                }
            }
        }
        assert forall|i: int| 0 <= i < extra.len() implies has_id(r, (#[trigger] extra[i]).id) by {
            if i < extra.len() - 1 {
                assert(has_id(rest, head[i].id));
                let k = choose|k: int| 0 <= k < rest.len() && (#[trigger] rest[k]).id == head[i].id;
                assert(r[k].id == extra[i].id);
            } else if has_id(rest, last.id) {
            } else {
                assert(r[rest.len() as int].id == extra[i].id);
            }
        }
        assert forall|i: int| base.len() <= i < r.len() implies is_new(
            base,
            extra,
            label,
            #[trigger] r[i],
        ) by {
            if i < rest.len() {
                assert(is_new(base, head, label, rest[i]));
                let k = choose|k: int|
                    0 <= k < head.len() && rest[i] == annotated(#[trigger] head[k], label)
                        && !has_id(base, head[k].id);
                assert(extra[k] == head[k]);
            } else {
                assert(r[i] == annotated(extra[extra.len() - 1], label));
            }
        }
        if distinct_ids(base) {
            assert forall|i: int, j: int| #![trigger r[i], r[j]] 0 <= i < j < r.len() implies r[i].id
                != r[j].id by {
                assert(r[i] == rest[i]);
                if j < rest.len() {
                    assert(r[j] == rest[j]);
                } else {
                    assert(rest[i].id != last.id);
                }
            }
        }
    }
}

/// Whether `f` is an annotated finding of `extra` whose id is not in `base`.
pub open spec fn is_new(
    base: Seq<FindingView>,
    extra: Seq<FindingView>,
    label: Seq<char>,
    f: FindingView,
) -> bool {
    exists|i: int|
        0 <= i < extra.len() && f == annotated(#[trigger] extra[i], label) && !has_id(
            base,
            extra[i].id,
        )
}

/// A merged report holds every finding of the baseline as it is, and for every
/// finding of the other passes one with its id.
pub proof fn merging_loses_nothing(b: ReportView, n: ReportView, a: ReportView)
    ensures
        forall|i: int|
            0 <= i < b.findings.len() ==> merged(b, n, a).findings.contains(
                #[trigger] b.findings[i],
            ),
        forall|i: int|
            0 <= i < n.findings.len() ==> has_id(
                merged(b, n, a).findings,
                (#[trigger] n.findings[i]).id,
            ),
        forall|i: int|
            0 <= i < a.findings.len() ==> has_id(
                merged(b, n, a).findings,
                (#[trigger] a.findings[i]).id,
            ),
{
    let first = with_extra(b.findings, n.findings, "--no-default-features"@);
    let all = all_passes(b.findings, n.findings, a.findings);
    extra_findings_are_added_once(b.findings, n.findings, "--no-default-features"@);
    extra_findings_are_added_once(first, a.findings, "--all-features"@);
    let m = merged(b, n, a).findings;
    assert forall|i: int| 0 <= i < b.findings.len() implies m.contains(
        #[trigger] b.findings[i],
    ) by {
        assert(first.take(b.findings.len() as int)[i] == first[i]);
        assert(all.take(first.len() as int)[i] == all[i]);
        assert(all.contains(b.findings[i]));
        lemma_ranked_contains(all, b.findings[i]);
    }
    assert forall|i: int| 0 <= i < n.findings.len() implies has_id(
        m,
        (#[trigger] n.findings[i]).id,
    ) by {
        let id = n.findings[i].id;
        assert(has_id(first, id));
        let k = choose|k: int| 0 <= k < first.len() && (#[trigger] first[k]).id == id;
        assert(all.take(first.len() as int)[k] == all[k]);
        assert(all[k] == first[k]);
        lemma_id_survives(all, k);
    }
    assert forall|i: int| 0 <= i < a.findings.len() implies has_id(
        m,
        (#[trigger] a.findings[i]).id,
    ) by {
        let id = a.findings[i].id;
        assert(has_id(all, id));
        let k = choose|k: int| 0 <= k < all.len() && (#[trigger] all[k]).id == id;
        lemma_id_survives(all, k);
    }
}

proof fn lemma_id_survives(s: Seq<FindingView>, k: int)
    requires
        0 <= k < s.len(),
    ensures
        has_id(ranked(s), s[k].id),
{
    lemma_ranked_contains(s, s[k]);
    assert(s.contains(s[k]));
    let r = ranked(s);
    let j = r.index_of(s[k]);
    assert(r[j].id == s[k].id);
}

/// Whether `f` stands as it is in the baseline, or is a finding of another
/// pass, with a note on the pass, whose id the baseline does not have.
pub open spec fn is_accounted_for(
    b: Seq<FindingView>,
    n: Seq<FindingView>,
    a: Seq<FindingView>,
    f: FindingView,
) -> bool {
    ||| b.contains(f)
    ||| is_new(b, n, "--no-default-features"@, f)
    ||| is_new(b, a, "--all-features"@, f)
}

/// A merged report holds nothing but findings of the baseline as they are and
/// annotated findings of the other passes that the baseline lacks.
pub proof fn merging_invents_nothing(b: ReportView, n: ReportView, a: ReportView)
    ensures
        forall|f: FindingView| #[trigger]
            merged(b, n, a).findings.contains(f) ==> is_accounted_for(
                b.findings,
                n.findings,
                a.findings,
                f,
            ),
{
    let first = with_extra(b.findings, n.findings, "--no-default-features"@);
    let all = all_passes(b.findings, n.findings, a.findings);
    extra_findings_are_added_once(b.findings, n.findings, "--no-default-features"@);
    extra_findings_are_added_once(first, a.findings, "--all-features"@);
    assert forall|f: FindingView| #[trigger]
        merged(b, n, a).findings.contains(f) implies is_accounted_for(
        b.findings,
        n.findings,
        a.findings,
        f,
    ) by {
        lemma_ranked_contains(all, f);
        let k = all.index_of(f);
        assert(all[k] == f);
        if k < first.len() {
            assert(all.take(first.len() as int)[k] == first[k]);
            if k < b.findings.len() {
                assert(first.take(b.findings.len() as int)[k] == b.findings[k]);
            } else {
                assert(is_new(b.findings, n.findings, "--no-default-features"@, first[k]));
            }
        } else {
            assert(is_new(first, a.findings, "--all-features"@, all[k]));
            let i = choose|i: int|
                0 <= i < a.findings.len() && f == annotated(
                    #[trigger] a.findings[i],
                    "--all-features"@,
                ) && !has_id(first, a.findings[i].id);
            assert(!has_id(b.findings, a.findings[i].id)) by {
                if has_id(b.findings, a.findings[i].id) {
                    let j = choose|j: int|
                        0 <= j < b.findings.len() && (#[trigger] b.findings[j]).id
                            == a.findings[i].id;
                    assert(first.take(b.findings.len() as int)[j] == first[j]);
                    assert(first[j].id == a.findings[i].id);
                }
            }
        }
    }
}

/// Where the baseline has no id twice, neither has the merged report.
pub proof fn merging_counts_each_id_once(b: ReportView, n: ReportView, a: ReportView)
    requires
        distinct_ids(b.findings),
    ensures
        distinct_ids(merged(b, n, a).findings),
{
    let first = with_extra(b.findings, n.findings, "--no-default-features"@);
    let all = all_passes(b.findings, n.findings, a.findings);
    extra_findings_are_added_once(b.findings, n.findings, "--no-default-features"@);
    extra_findings_are_added_once(first, a.findings, "--all-features"@);
    lemma_sorting_keeps_ids_distinct(all);
}

/// Sorting keeps ids distinct.
proof fn lemma_sorting_keeps_ids_distinct(s: Seq<FindingView>)
    requires
        distinct_ids(s),
    ensures
        distinct_ids(ranked(s)),
{
    broadcast use vstd::seq_lib::group_to_multiset_ensures;

    let r = ranked(s);
    report_order_is_weak();
    crate::order::sorting_orders(s, report_order());
    assert(s.no_duplicates()) by {
        assert forall|i: int, j: int| 0 <= i < s.len() && 0 <= j < s.len() && i != j implies s[i]
            != s[j] by {
            if i < j {
                assert(s[i].id != s[j].id);
            } else {
                assert(s[j].id != s[i].id);
            }
        }
    }
    s.lemma_multiset_has_no_duplicates();
    r.lemma_multiset_has_no_duplicates_conv();
    assert forall|i: int, j: int| #![trigger r[i], r[j]] 0 <= i < j < r.len() implies r[i].id
        != r[j].id by {
        lemma_ranked_contains(s, r[i]);
        lemma_ranked_contains(s, r[j]);
        assert(r.contains(r[i]) && r.contains(r[j]));
        let x = s.index_of(r[i]);
        let y = s.index_of(r[j]);
        assert(r[i] != r[j]);
        assert(s[x] != s[y]);
        if x < y {
            assert(s[x].id != s[y].id);
        } else {
            assert(s[y].id != s[x].id);
        }
    }
}

proof fn lemma_pass_is_deterministic(
    w: WorkspaceView,
    checks: Checks,
    manifest: Option<Seq<char>>,
    flags: Seq<Seq<char>>,
    no_default: bool,
    all_features: bool,
    a: ReportView,
    b: ReportView,
)
    requires
        pass_report(w, checks, manifest, flags, no_default, all_features, a),
        pass_report(w, checks, manifest, flags, no_default, all_features, b),
    ensures
        a == b,
{
    let f = choose|f: FeaturesView| #[trigger]
        run_features(manifest, flags, no_default, all_features, Some(f)) && a == analysis(
            w,
            checks,
            f,
        );
    let g = choose|g: FeaturesView| #[trigger]
        run_features(manifest, flags, no_default, all_features, Some(g)) && b == analysis(
            w,
            checks,
            g,
        );
    run_features_are_unique(manifest, flags, no_default, all_features, Some(f), Some(g));
}

/// Two runs over the same workspace with the same arguments report the same.
pub proof fn runs_are_deterministic(
    w: WorkspaceView,
    args: ImpactArgs,
    manifest: Option<Seq<char>>,
    a: ReportView,
    b: ReportView,
)
    requires
        run_report(w, args, manifest, a),
        run_report(w, args, manifest, b),
    ensures
        a == b,
{
    let checks = checks_spec(args);
    let flags = texts(args.features@);
    let none = Seq::<Seq<char>>::empty();
    let d = args.no_default_features;
    let e = args.all_features;
    if !args.feature_powerset {
        lemma_pass_is_deterministic(w, checks, manifest, flags, d, e, a, b);
    } else {
        let (a1, a2, a3) = choose|x: ReportView, y: ReportView, z: ReportView|
            {
                &&& #[trigger] pass_report(w, checks, manifest, flags, d, e, x)
                &&& #[trigger] pass_report(w, checks, manifest, none, true, false, y)
                &&& #[trigger] pass_report(w, checks, manifest, none, false, true, z)
                &&& a == merged(x, y, z)
            };
        let (b1, b2, b3) = choose|x: ReportView, y: ReportView, z: ReportView|
            {
                &&& #[trigger] pass_report(w, checks, manifest, flags, d, e, x)
                &&& #[trigger] pass_report(w, checks, manifest, none, true, false, y)
                &&& #[trigger] pass_report(w, checks, manifest, none, false, true, z)
                &&& b == merged(x, y, z)
            };
        lemma_pass_is_deterministic(w, checks, manifest, flags, d, e, a1, b1);
        lemma_pass_is_deterministic(w, checks, manifest, none, true, false, a2, b2);
        lemma_pass_is_deterministic(w, checks, manifest, none, false, true, a3, b3);
    }
}

/// A run asks for just the checks that its arguments switch on.
pub proof fn runs_ask_for_their_checks(args: ImpactArgs)
    ensures
        checks_spec(args).semver == args.semver_checks,
        checks_spec(args).analyzer == args.rust_analyzer,
        checks_spec(args).expand == args.macro_expand,
        checks_spec(args).confidence_min == args.confidence_min,
{
}

/// A run makes one pass under the features asked for; where the feature sets are
/// to be compared, it makes two more, one without default features and one with
/// all of them.
pub proof fn runs_compare_feature_sets_where_asked(args: ImpactArgs)
    ensures
        ({
            let s = run_settings(args);
            &&& s.len() == (if args.feature_powerset {
                3nat
            } else {
                1nat
            })
            &&& s[0].features == texts(args.features@)
            &&& s[0].no_default == args.no_default_features
            &&& s[0].all_features == args.all_features
            &&& args.feature_powerset ==> s[1].features.len() == 0 && s[1].no_default
                && !s[1].all_features && s[2].features.len() == 0 && !s[2].no_default
                && s[2].all_features
        }),
{
}

/// A run expands where one of its passes does; it lacks the program where none
/// expands and one lacks it; else it does nothing.
pub proof fn runs_expand_where_a_pass_does(plans: Seq<ToolPlan>)
    ensures
        overall_plan(plans) is Invoke <==> exists|i: int|
            0 <= i < plans.len() && #[trigger] plans[i] is Invoke,
        overall_plan(plans) is Skip <==> forall|i: int|
            0 <= i < plans.len() ==> #[trigger] plans[i] is Skip,
{
    if exists|i: int| 0 <= i < plans.len() && #[trigger] plans[i] is Invoke {
        let i = choose|i: int| 0 <= i < plans.len() && #[trigger] plans[i] is Invoke;
        assert(plans[i] == ToolPlan::Invoke);
        assert(plans.contains(plans[i]));
    }
    if plans.contains(ToolPlan::Invoke) {
        let i = plans.index_of(ToolPlan::Invoke);
        assert(plans[i] is Invoke);
    }
    if plans.contains(ToolPlan::Missing) {
        let i = plans.index_of(ToolPlan::Missing);
        assert(plans[i] is Missing);
    }
    if exists|i: int| 0 <= i < plans.len() && !(#[trigger] plans[i] is Skip) {
        let i = choose|i: int| 0 <= i < plans.len() && !(#[trigger] plans[i] is Skip);
        assert(plans.contains(plans[i]));
    }
}

/// A note on the feature set goes behind the evidence and changes nothing else.
pub proof fn notes_go_behind_the_evidence(f: FindingView, label: Seq<char>)
    ensures
        annotated(f, label).id == f.id,
        annotated(f, label).severity == f.severity,
        annotated(f, label).tier == f.tier,
        annotated(f, label).confidence == f.confidence,
        annotated(f, label).kind == f.kind,
        annotated(f, label).suggested_action == f.suggested_action,
        annotated(f, label).evidence == f.evidence + (" (only visible with "@ + label + ")"@),
{
    assert(f.evidence + " (only visible with "@ + label + ")"@ =~= f.evidence + (
    " (only visible with "@ + label + ")"@));
}

/// What a pass does about expansion follows from the features that it goes by;
/// a run that makes one pass does what that pass does.
pub proof fn plans_follow_the_features(
    w: WorkspaceView,
    args: ImpactArgs,
    manifest: Option<Seq<char>>,
    plans: Seq<ToolPlan>,
    f: FeaturesView,
    i: int,
)
    requires
        plans_of_passes(w, args.macro_expand, manifest, run_settings(args), plans),
        0 <= i < run_settings(args).len(),
        run_features(
            manifest,
            run_settings(args)[i].features,
            run_settings(args)[i].no_default,
            run_settings(args)[i].all_features,
            Some(f),
        ),
    ensures
        plans.len() == run_settings(args).len(),
        plans[i] == expansion_plan(
            args.macro_expand,
            trait_names(symbols_of(w.changed, f)),
            symbol_names(symbols_of(w.changed, f)),
            w.expand_installed,
        ),
        !args.feature_powerset ==> overall_plan(plans) == plans[0],
{
    let s = run_settings(args)[i];
    assert(pass_plan(w, args.macro_expand, manifest, s, plans[i]));
    let g = choose|g: FeaturesView| #[trigger]
        run_features(manifest, s.features, s.no_default, s.all_features, Some(g)) && plans[i]
            == plan_under(w, args.macro_expand, g);
    run_features_are_unique(manifest, s.features, s.no_default, s.all_features, Some(f), Some(g));
    if !args.feature_powerset {
        assert(plans.len() == 1);
        assert(plans.contains(plans[0]));
    }
}

/// The report of one pass is that of the analysis under its features, and of no
/// others.
pub proof fn reports_follow_the_features(
    w: WorkspaceView,
    args: ImpactArgs,
    manifest: Option<Seq<char>>,
    r: ReportView,
    f: FeaturesView,
)
    requires
        !args.feature_powerset,
        run_report(w, args, manifest, r),
        run_features(
            manifest,
            texts(args.features@),
            args.no_default_features,
            args.all_features,
            Some(f),
        ),
    ensures
        r == analysis(
            w,
            Checks {
                semver: args.semver_checks,
                analyzer: args.rust_analyzer,
                expand: args.macro_expand,
                confidence_min: args.confidence_min,
            },
            f,
        ),
{
    let flags = texts(args.features@);
    let g = choose|g: FeaturesView| #[trigger]
        run_features(manifest, flags, args.no_default_features, args.all_features, Some(g)) && r
            == analysis(w, checks_spec(args), g);
    run_features_are_unique(
        manifest,
        flags,
        args.no_default_features,
        args.all_features,
        Some(f),
        Some(g),
    );
}

/// A run that compares feature sets merges the reports of its three passes.
pub proof fn compared_reports_are_merged(
    w: WorkspaceView,
    args: ImpactArgs,
    manifest: Option<Seq<char>>,
    r: ReportView,
    own: FeaturesView,
    bare: FeaturesView,
    full: FeaturesView,
)
    requires
        args.feature_powerset,
        run_report(w, args, manifest, r),
        run_features(
            manifest,
            texts(args.features@),
            args.no_default_features,
            args.all_features,
            Some(own),
        ),
        run_features(manifest, Seq::empty(), true, false, Some(bare)),
        run_features(manifest, Seq::empty(), false, true, Some(full)),
    ensures
        r == merged(
            analysis(w, checks_spec(args), own),
            analysis(w, checks_spec(args), bare),
            analysis(w, checks_spec(args), full),
        ),
{
    let checks = checks_spec(args);
    let flags = texts(args.features@);
    let none = Seq::<Seq<char>>::empty();
    let d = args.no_default_features;
    let e = args.all_features;
    let (b, n, a) = choose|b: ReportView, n: ReportView, a: ReportView|
        {
            &&& #[trigger] pass_report(w, checks, manifest, flags, d, e, b)
            &&& #[trigger] pass_report(w, checks, manifest, none, true, false, n)
            &&& #[trigger] pass_report(w, checks, manifest, none, false, true, a)
            &&& r == merged(b, n, a)
        };
    lemma_pass_is_deterministic(
        w,
        checks,
        manifest,
        flags,
        d,
        e,
        b,
        analysis(w, checks, own),
    );
    lemma_pass_is_deterministic(
        w,
        checks,
        manifest,
        none,
        true,
        false,
        n,
        analysis(w, checks, bare),
    );
    lemma_pass_is_deterministic(
        w,
        checks,
        manifest,
        none,
        false,
        true,
        a,
        analysis(w, checks, full),
    );
}

} // verus!
