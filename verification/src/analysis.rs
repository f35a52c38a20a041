//! The analysis of a change, from the files it touches to the report.
use crate::adapters::{find_runtime_surfaces, runtime_surfaces};
use crate::cfg::{FeatureSet, FeaturesView};
use crate::dedup::{
    dedup_expanded_under_raw, dedup_syn_under_proven, unshadowed, without_covered,
};
use crate::derive::{derive_impls, find_derive_impls};
use crate::diff::{change_views, diff_file, file_diff, opt_str, ChangeView, ChangedItem};
use crate::doc_drift::{doc_drift, find_doc_drift};
use crate::dyn_dispatch::{dyn_dispatch_sites, find_dyn_dispatch_sites};
use crate::ffi::{ffi_changes, find_ffi_changes};
use crate::finding::{
    content_id_of, finding_views, kind_path, new_finding, opt_text, Finding, FindingKind,
    FindingView, KindView, Tier,
};
use crate::ignore::{ignores, IgnoreSet, PatternView};
use crate::macro_expand::expansion_run;
use crate::names::{name_set, NameSet};
use crate::order::{lemma_filter_map, retain_marked};
use crate::paths::{file_name, file_name_spec, ordered_paths, path_set};
use crate::ranking::{rank_findings, ranked};
use crate::semver_checks::semver_run;
use crate::symbols::{
    file_views, source_symbols, symbol_views, top_level_symbols, FileView, SourceFile, SymbolView,
    TopLevelSymbol,
};
use crate::tests_scan::{affected_tests, find_affected_tests};
use crate::text::{same, texts};
use crate::tools::ToolOutput;
use crate::trait_methods::{
    classify_changes_in_file, file_records, record_finding, record_views, RecordView,
    TraitChangeRecord,
};
use crate::traits::{changed_trait_names, find_trait_impls, trait_impls, trait_names};
use vstd::prelude::*;
use vstd::string::*;

verus! {

// ---------------------------------------------------------------------------
// Inputs and the report
// ---------------------------------------------------------------------------

/// A file at the revision that a run compares with.
#[derive(Debug, PartialEq, Eq)]
pub enum Revision {
    /// The revision has no such file.
    Missing,
    Text(String),
    /// git could not be asked.
    Failed,
}

/// A [`Revision`] as plain data.
pub enum RevisionView {
    Missing,
    Text(Seq<char>),
    Failed,
}

impl View for Revision {
    type V = RevisionView;

    open spec fn view(&self) -> RevisionView {
        match self {
            Revision::Missing => RevisionView::Missing,
            Revision::Text(t) => RevisionView::Text(t@),
            Revision::Failed => RevisionView::Failed,
        }
    }
}

/// A changed file: where it is, and both versions.
#[derive(Debug, PartialEq, Eq)]
pub struct ChangedFile {
    pub path: String,
    /// The text in the working tree, where there is one.
    pub worktree: Option<String>,
    pub head: Revision,
}

/// A [`ChangedFile`] as plain data.
pub struct ChangedView {
    pub path: Seq<char>,
    pub worktree: Option<Seq<char>>,
    pub head: RevisionView,
}

impl View for ChangedFile {
    type V = ChangedView;

    open spec fn view(&self) -> ChangedView {
        ChangedView { path: self.path@, worktree: opt_text(self.worktree), head: self.head@ }
    }
}

/// Changed files as plain data.
pub open spec fn changed_views(s: Seq<ChangedFile>) -> Seq<ChangedView> {
    s.map_values(|c: ChangedFile| c@)
}

/// What an analysis reads.
#[derive(Debug, PartialEq, Eq)]
pub struct Workspace {
    /// The changed Rust files.
    pub changed: Vec<ChangedFile>,
    /// All Rust files.
    pub sources: Vec<SourceFile>,
    /// All Markdown files.
    pub docs: Vec<SourceFile>,
    /// The patterns of `.impactignore`.
    pub ignore: IgnoreSet,
    pub semver_installed: bool,
    /// What `cargo-semver-checks` left behind, where it ran.
    pub semver_output: Option<ToolOutput>,
    pub analyzer_installed: bool,
    pub expand_installed: bool,
    /// What `cargo-expand` printed, where it succeeded.
    pub expanded: Option<String>,
}

/// A [`Workspace`] as plain data.
pub struct WorkspaceView {
    pub changed: Seq<ChangedView>,
    pub sources: Seq<FileView>,
    pub docs: Seq<FileView>,
    pub ignore: Seq<PatternView>,
    pub semver_installed: bool,
    pub semver_output: Option<ToolOutput>,
    pub expand_installed: bool,
    pub expanded: Option<Seq<char>>,
}

impl View for Workspace {
    type V = WorkspaceView;

    open spec fn view(&self) -> WorkspaceView {
        WorkspaceView {
            changed: changed_views(self.changed@),
            sources: file_views(self.sources@),
            docs: file_views(self.docs@),
            ignore: self.ignore@,
            semver_installed: self.semver_installed,
            semver_output: self.semver_output,
            expand_installed: self.expand_installed,
            expanded: opt_text(self.expanded),
        }
    }
}

/// Which optional checks run, and the confidence that a finding needs.
#[derive(Debug, Clone, Copy, PartialEq, Eq, Structural)]
pub struct Checks {
    pub semver: bool,
    pub analyzer: bool,
    pub expand: bool,
    /// Hundredths of confidence.
    pub confidence_min: i64,
}

/// The outcome of an analysis.
#[derive(Debug, PartialEq, Eq)]
pub struct AnalysisReport {
    pub changed_files: Vec<String>,
    pub candidate_symbols: Vec<String>,
    pub findings: Vec<Finding>,
}

/// An [`AnalysisReport`] as plain data.
#[verifier::ext_equal]
pub struct ReportView {
    pub changed_files: Seq<Seq<char>>,
    pub candidate_symbols: Seq<Seq<char>>,
    pub findings: Seq<FindingView>,
}

impl View for AnalysisReport {
    type V = ReportView;

    open spec fn view(&self) -> ReportView {
        ReportView {
            changed_files: texts(self.changed_files@),
            candidate_symbols: texts(self.candidate_symbols@),
            findings: finding_views(self.findings@),
        }
    }
}

// ---------------------------------------------------------------------------
// Changed symbols
// ---------------------------------------------------------------------------

/// What `g` gives for each changed file, one after the other.
pub open spec fn gathered<T>(c: Seq<ChangedView>, g: spec_fn(ChangedView) -> Seq<T>) -> Seq<T>
    decreases c.len(),
{
    if c.len() == 0 {
        Seq::empty()
    } else {
        gathered(c.drop_last(), g) + g(c.last())
    }
}

/// The text at the revision, where there is one.
pub open spec fn head_text(r: RevisionView) -> Option<Seq<char>> {
    match r {
        RevisionView::Text(t) => Some(t),
        _ => None,
    }
}

/// The symbols of changes.
pub open spec fn change_symbols(s: Seq<ChangeView>) -> Seq<SymbolView> {
    s.map_values(|c: ChangeView| SymbolView { name: c.name, kind: c.kind })
}

/// The changed symbols of a file: those that a comparison of both versions
/// shows, or all of the working tree where there is no comparison. Where git
/// could not be asked there are none.
pub open spec fn file_symbols(f: FeaturesView) -> spec_fn(ChangedView) -> Seq<SymbolView> {
    |c: ChangedView|
        if c.head is Failed {
            Seq::empty()
        } else {
            match file_diff(c.worktree, head_text(c.head), f) {
                Some(changes) => change_symbols(changes),
                None => match c.worktree {
                    Some(w) => match source_symbols(w, f) {
                        Some(s) => s,
                        None => Seq::empty(),
                    },
                    None => Seq::empty(),
                },
            }
        }
}

/// The changed symbols of a change.
pub open spec fn symbols_of(c: Seq<ChangedView>, f: FeaturesView) -> Seq<SymbolView> {
    gathered(c, file_symbols(f))
}

/// The names of symbols.
pub open spec fn symbol_names(s: Seq<SymbolView>) -> Seq<Seq<char>> {
    name_set(s.map_values(|v: SymbolView| v.name))
}

fn as_text<'a>(o: &'a Option<String>) -> (r: Option<&'a str>)
    ensures
        opt_str(r) == opt_text(*o),
{
    match o {
        Some(s) => Some(s.as_str()),
        None => None,
    }
}

fn head_of<'a>(r: &'a Revision) -> (t: Option<&'a str>)
    ensures
        opt_str(t) == head_text(r@),
{
    match r {
        Revision::Text(s) => Some(s.as_str()),
        _ => None,
    }
}

fn symbols_of_changes(items: &Vec<ChangedItem>) -> (r: Vec<TopLevelSymbol>)
    ensures
        symbol_views(r@) == change_symbols(change_views(items@)),
{
    let mut out: Vec<TopLevelSymbol> = Vec::new();
    let mut i: usize = 0;
    while i < items.len()
        invariant
            i <= items@.len(),
            out@.len() == i,
            forall|j: int|
                0 <= j < i ==> (#[trigger] out@[j])@ == (SymbolView {
                    name: items@[j].name@,
                    kind: items@[j].kind,
                }),
        decreases items@.len() - i,
    {
        out.push(TopLevelSymbol { name: items[i].name.clone(), kind: items[i].kind });
        i = i + 1;
    }
    proof {
        assert(symbol_views(out@) =~= change_symbols(change_views(items@)));
    }
    out
}

fn symbols_in(c: &ChangedFile, features: &FeatureSet) -> (r: Vec<TopLevelSymbol>)
    ensures
        symbol_views(r@) == file_symbols(features@)(c@),
{
    let none: Vec<TopLevelSymbol> = Vec::new();
    proof {
        assert(symbol_views(none@) =~= Seq::empty());
    }
    match &c.head {
        Revision::Failed => {
            return none;
        },
        _ => {},
    }
    match diff_file(as_text(&c.worktree), head_of(&c.head), features) {
        Some(items) => symbols_of_changes(&items),
        None => match &c.worktree {
            Some(w) => match top_level_symbols(w.as_str(), features) {
                Some(s) => s,
                None => none,
            },
            None => none,
        },
    }
}

/// The changed symbols of a change.
pub fn changed_symbols(changed: &Vec<ChangedFile>, features: &FeatureSet) -> (r: Vec<
    TopLevelSymbol,
>)
    ensures
        symbol_views(r@) == symbols_of(changed_views(changed@), features@),
{
    let ghost c = changed_views(changed@);
    let ghost g = file_symbols(features@);
    let mut out: Vec<TopLevelSymbol> = Vec::new();
    let mut i: usize = 0;
    proof {
        assert(symbol_views(out@) =~= Seq::empty());
    }
    while i < changed.len()
        invariant
            i <= changed@.len(),
            c == changed_views(changed@),
            g == file_symbols(features@),
            symbol_views(out@) == gathered(c.take(i as int), g),
        decreases changed@.len() - i,
    {
        let ghost before = out@;
        let mut more = symbols_in(&changed[i], features);
        let ghost added = more@;
        out.append(&mut more);
        proof {
            assert(c.take(i + 1).drop_last() =~= c.take(i as int));
            assert(c.take(i + 1).last() == changed@[i as int]@);
            assert(symbol_views(out@) =~= symbol_views(before) + symbol_views(added));
        }
        i = i + 1;
    }
    proof {
        assert(c.take(changed@.len() as int) =~= c);
    }
    out
}

/// The names of symbols.
pub fn names_of(symbols: &Vec<TopLevelSymbol>) -> (r: NameSet)
    ensures
        r@ == symbol_names(symbol_views(symbols@)),
{
    let mut names: Vec<String> = Vec::new();
    let mut i: usize = 0;
    while i < symbols.len()
        invariant
            i <= symbols@.len(),
            names@.len() == i,
            forall|j: int| 0 <= j < i ==> (#[trigger] names@[j])@ == symbols@[j].name@,
        decreases symbols@.len() - i,
    {
        names.push(symbols[i].name.clone());
        i = i + 1;
    }
    proof {
        assert(texts(names@) =~= symbol_views(symbols@).map_values(|v: SymbolView| v.name));
    }
    NameSet::from_names(&names)
}

// ---------------------------------------------------------------------------
// Findings
// ---------------------------------------------------------------------------

/// The findings for the foreign-facing signatures of a changed file.
pub open spec fn file_ffi(f: FeaturesView) -> spec_fn(ChangedView) -> Seq<FindingView> {
    |c: ChangedView|
        if c.head is Failed {
            Seq::empty()
        } else {
            ffi_changes(c.worktree, head_text(c.head), c.path, f)
        }
}

/// The findings for the trait definitions of a changed file.
pub open spec fn file_traits(f: FeaturesView) -> spec_fn(ChangedView) -> Seq<FindingView> {
    |c: ChangedView|
        if c.head is Failed {
            Seq::empty()
        } else {
            file_records(c.worktree, head_text(c.head), c.path, f).map_values(
                |r: RecordView| record_finding(r),
            )
        }
}

/// The finding for a changed build script.
pub open spec fn build_finding(path: Seq<char>) -> FindingView {
    new_finding(
        ""@,
        Tier::Likely,
        90,
        KindView::BuildScriptChanged { file: path },
        "build script `"@ + path
            + "` changed — build scripts can invalidate downstream compilation in non-obvious ways (env vars, rerun-if-*, generated code, linker flags)"@,
    )
}

/// The finding for a changed file that is a build script.
pub open spec fn file_build() -> spec_fn(ChangedView) -> Seq<FindingView> {
    |c: ChangedView|
        if file_name_spec(c.path) == Some("build.rs"@) {
            seq![build_finding(c.path)]
        } else {
            Seq::empty()
        }
}

/// The findings of all checks, before redundant and unwanted ones are dropped.
pub open spec fn raw_findings(w: WorkspaceView, checks: Checks, f: FeaturesView) -> Seq<
    FindingView,
> {
    let symbols = symbols_of(w.changed, f);
    let names = symbol_names(symbols);
    let traits = trait_names(symbols);
    affected_tests(w.sources, names, f) + trait_impls(w.sources, traits, f) + derive_impls(
        w.sources,
        traits,
        f,
    ) + dyn_dispatch_sites(w.sources, traits, f) + doc_drift(w.docs, w.sources, names)
        + runtime_surfaces(w.sources, names, f) + gathered(w.changed, file_ffi(f)) + gathered(
        w.changed,
        file_traits(f),
    ) + gathered(w.changed, file_build()) + semver_run(
        checks.semver,
        w.semver_installed,
        w.semver_output,
    ) + expansion_run(checks.expand, traits, names, w.expand_installed, w.expanded)
}

/// Number of analyzers.
pub open spec fn analyzer_count() -> nat {
    6
}

/// The findings of one analyzer, given the changed symbols.
pub open spec fn analyzer_findings(
    sources: Seq<FileView>,
    docs: Seq<FileView>,
    symbols: Seq<SymbolView>,
    f: FeaturesView,
    i: nat,
) -> Seq<FindingView> {
    let names = symbol_names(symbols);
    let traits = trait_names(symbols);
    if i == 0 {
        affected_tests(sources, names, f)
    } else if i == 1 {
        trait_impls(sources, traits, f)
    } else if i == 2 {
        derive_impls(sources, traits, f)
    } else if i == 3 {
        dyn_dispatch_sites(sources, traits, f)
    } else if i == 4 {
        doc_drift(docs, sources, names)
    } else if i == 5 {
        runtime_surfaces(sources, names, f)
    } else {
        Seq::empty()
    }
}

/// A pass over a workspace in progress: the symbols and the findings so far, and
/// how many files and analyzers they come from.
#[verifier::ext_equal]
pub struct PassView {
    pub symbols: Seq<SymbolView>,
    pub findings: Seq<FindingView>,
    pub files: nat,
    pub analyzers: nat,
}

/// A pass that has not begun.
pub open spec fn fresh_pass() -> PassView {
    PassView { symbols: Seq::empty(), findings: Seq::empty(), files: 0, analyzers: 0 }
}

/// A pass after one more step: the symbols of the next changed file or, behind
/// all of them, the findings of the next analyzer.
pub open spec fn stepped(
    changed: Seq<ChangedView>,
    sources: Seq<FileView>,
    docs: Seq<FileView>,
    f: FeaturesView,
    st: PassView,
) -> PassView {
    if st.files < changed.len() {
        PassView {
            symbols: st.symbols + file_symbols(f)(changed[st.files as int]),
            files: st.files + 1,
            ..st
        }
    } else if st.analyzers < analyzer_count() {
        PassView {
            findings: st.findings + analyzer_findings(sources, docs, st.symbols, f, st.analyzers),
            analyzers: st.analyzers + 1,
            ..st
        }
    } else {
        st
    }
}

/// A pass after its first `n` steps.
pub open spec fn after_steps(
    changed: Seq<ChangedView>,
    sources: Seq<FileView>,
    docs: Seq<FileView>,
    f: FeaturesView,
    n: nat,
) -> PassView
    decreases n,
{
    if n == 0 {
        fresh_pass()
    } else {
        stepped(changed, sources, docs, f, after_steps(changed, sources, docs, f, (n - 1) as nat))
    }
}

/// The findings of a pass together with those of the changed files and of the
/// helper programs.
pub open spec fn all_findings(w: WorkspaceView, checks: Checks, f: FeaturesView, st: PassView) -> Seq<
    FindingView,
> {
    st.findings + gathered(w.changed, file_ffi(f)) + gathered(w.changed, file_traits(f)) + gathered(
        w.changed,
        file_build(),
    ) + semver_run(checks.semver, w.semver_installed, w.semver_output) + expansion_run(
        checks.expand,
        trait_names(st.symbols),
        symbol_names(st.symbols),
        w.expand_installed,
        w.expanded,
    )
}

/// The report that a pass ends in.
pub open spec fn finished(w: WorkspaceView, checks: Checks, f: FeaturesView, st: PassView) -> ReportView {
    if w.changed.len() == 0 {
        ReportView {
            changed_files: Seq::empty(),
            candidate_symbols: Seq::empty(),
            findings: Seq::empty(),
        }
    } else {
        ReportView {
            changed_files: w.changed.map_values(|c: ChangedView| c.path),
            candidate_symbols: symbol_names(st.symbols),
            findings: reported(
                all_findings(w, checks, f, st),
                w.ignore,
                checks.confidence_min as int,
            ),
        }
    }
}

/// Whether a finding is wanted: no pattern ignores its file, and its confidence
/// is high enough. A finding without a file is never ignored.
pub open spec fn wanted(patterns: Seq<PatternView>, min: int) -> spec_fn(FindingView) -> bool {
    |f: FindingView|
        f.confidence >= min && match kind_path(f.kind) {
            Some(p) => !ignores(patterns, p),
            None => true,
        }
}

/// A finding with the id that its content determines.
pub open spec fn identified(f: FindingView) -> FindingView {
    FindingView { id: content_id_of(f.kind, f.evidence), ..f }
}

/// What is reported of raw findings: those that no other finding makes
/// redundant and that are wanted, each with its id, in order.
pub open spec fn reported(raw: Seq<FindingView>, patterns: Seq<PatternView>, min: int) -> Seq<
    FindingView,
> {
    ranked(
        without_covered(unshadowed(raw)).filter(wanted(patterns, min)).map_values(
            |f: FindingView| identified(f),
        ),
    )
}

/// The report on a workspace under a feature set. Without changed files it is
/// empty.
pub open spec fn analysis(w: WorkspaceView, checks: Checks, f: FeaturesView) -> ReportView {
    if w.changed.len() == 0 {
        ReportView {
            changed_files: Seq::empty(),
            candidate_symbols: Seq::empty(),
            findings: Seq::empty(),
        }
    } else {
        ReportView {
            changed_files: w.changed.map_values(|c: ChangedView| c.path),
            candidate_symbols: symbol_names(symbols_of(w.changed, f)),
            findings: reported(
                raw_findings(w, checks, f),
                w.ignore,
                checks.confidence_min as int,
            ),
        }
    }
}

fn extend(out: &mut Vec<Finding>, more: Vec<Finding>)
    ensures
        finding_views(final(out)@) == finding_views(old(out)@) + finding_views(more@),
{
    let mut more = more;
    let ghost before = out@;
    let ghost added = more@;
    out.append(&mut more);
    proof {
        assert(finding_views(out@) =~= finding_views(before) + finding_views(added));
    }
}

fn ffi_in(c: &ChangedFile, features: &FeatureSet) -> (r: Vec<Finding>)
    ensures
        finding_views(r@) == file_ffi(features@)(c@),
{
    match &c.head {
        Revision::Failed => {
            let none: Vec<Finding> = Vec::new();
            proof {
                assert(finding_views(none@) =~= Seq::empty());
            }
            none
        },
        _ => find_ffi_changes(
            as_text(&c.worktree),
            head_of(&c.head),
            c.path.as_str(),
            features,
        ),
    }
}

fn findings_of_records(records: Vec<TraitChangeRecord>) -> (r: Vec<Finding>)
    ensures
        finding_views(r@) == record_views(records@).map_values(|r: RecordView| record_finding(r)),
{
    let ghost all = records@;
    let n: usize = records.len();
    let mut back = crate::order::reversed(records);
    let mut out: Vec<Finding> = Vec::new();
    let mut i: usize = 0;
    while i < n
        invariant
            i <= n,
            n == all.len(),
            back@.len() == n - i,
            forall|j: int| 0 <= j < back@.len() ==> #[trigger] back@[j] == all[all.len() - 1 - j],
            out@.len() == i,
            forall|j: int| 0 <= j < i ==> (#[trigger] out@[j])@ == record_finding(all[j]@),
        decreases n - i,
    {
        let x = back.pop().unwrap();
        out.push(x.into_finding());
        i = i + 1;
    }
    proof {
        assert(finding_views(out@) =~= record_views(all).map_values(
            |r: RecordView| record_finding(r),
        ));
    }
    out
}

fn traits_in(c: &ChangedFile, features: &FeatureSet) -> (r: Vec<Finding>)
    ensures
        finding_views(r@) == file_traits(features@)(c@),
{
    match &c.head {
        Revision::Failed => {
            let none: Vec<Finding> = Vec::new();
            proof {
                assert(finding_views(none@) =~= Seq::empty());
            }
            none
        },
        _ => findings_of_records(
            classify_changes_in_file(
                as_text(&c.worktree),
                head_of(&c.head),
                c.path.as_str(),
                features,
            ),
        ),
    }
}

fn build_in(c: &ChangedFile) -> (r: Vec<Finding>)
    ensures
        finding_views(r@) == file_build()(c@),
{
    let mut out: Vec<Finding> = Vec::new();
    let is_build = match file_name(c.path.as_str()) {
        Some(n) => same(n.as_str(), "build.rs"),
        None => false,
    };
    if is_build {
        let mut evidence = "build script `".to_owned();
        evidence.append(c.path.as_str());
        evidence.append(
            "` changed — build scripts can invalidate downstream compilation in non-obvious ways (env vars, rerun-if-*, generated code, linker flags)",
        );
        let kind = FindingKind::BuildScriptChanged { file: c.path.clone() };
        let f = Finding::new("", Tier::Likely, 90, kind, evidence.as_str());
        out.push(f);
        proof {
            assert(finding_views(out@) =~= seq![f@]);
        }
    } else {
        proof {
            assert(finding_views(out@) =~= Seq::empty());
        }
    }
    out
}

fn per_file_findings(changed: &Vec<ChangedFile>, features: &FeatureSet) -> (r: Vec<Finding>)
    ensures
        finding_views(r@) == gathered(changed_views(changed@), file_ffi(features@)) + gathered(
            changed_views(changed@),
            file_traits(features@),
        ) + gathered(changed_views(changed@), file_build()),
{
    let ghost c = changed_views(changed@);
    let mut ffi: Vec<Finding> = Vec::new();
    let mut traits: Vec<Finding> = Vec::new();
    let mut builds: Vec<Finding> = Vec::new();
    let mut i: usize = 0;
    proof {
        assert(finding_views(ffi@) =~= Seq::empty());
    }
    while i < changed.len()
        invariant
            i <= changed@.len(),
            c == changed_views(changed@),
            finding_views(ffi@) == gathered(c.take(i as int), file_ffi(features@)),
            finding_views(traits@) == gathered(c.take(i as int), file_traits(features@)),
            finding_views(builds@) == gathered(c.take(i as int), file_build()),
        decreases changed@.len() - i,
    {
        proof {
            assert(c.take(i + 1).drop_last() =~= c.take(i as int));
            assert(c.take(i + 1).last() == changed@[i as int]@);
        }
        extend(&mut ffi, ffi_in(&changed[i], features));
        extend(&mut traits, traits_in(&changed[i], features));
        extend(&mut builds, build_in(&changed[i]));
        i = i + 1;
    }
    proof {
        assert(c.take(changed@.len() as int) =~= c);
    }
    extend(&mut ffi, traits);
    extend(&mut ffi, builds);
    ffi
}

/// A pass over a workspace in progress.
#[derive(Debug, PartialEq, Eq)]
pub struct Pass {
    pub symbols: Vec<TopLevelSymbol>,
    pub findings: Vec<Finding>,
    /// How many changed files were read.
    pub files: usize,
    /// How many analyzers were run.
    pub analyzers: usize,
}

impl View for Pass {
    type V = PassView;

    open spec fn view(&self) -> PassView {
        PassView {
            symbols: symbol_views(self.symbols@),
            findings: finding_views(self.findings@),
            files: self.files as nat,
            analyzers: self.analyzers as nat,
        }
    }
}

fn run_analyzer(
    sources: &Vec<SourceFile>,
    docs: &Vec<SourceFile>,
    symbols: &Vec<TopLevelSymbol>,
    features: &FeatureSet,
    i: usize,
) -> (r: Vec<Finding>)
    ensures
        finding_views(r@) == analyzer_findings(
            file_views(sources@),
            file_views(docs@),
            symbol_views(symbols@),
            features@,
            i as nat,
        ),
{
    let names = names_of(symbols);
    let traits = changed_trait_names(symbols);
    if i == 0 {
        find_affected_tests(sources, &names, features)
    } else if i == 1 {
        find_trait_impls(sources, &traits, features)
    } else if i == 2 {
        find_derive_impls(sources, &traits, features)
    } else if i == 3 {
        find_dyn_dispatch_sites(sources, &traits, features)
    } else if i == 4 {
        find_doc_drift(docs, sources, &names)
    } else if i == 5 {
        find_runtime_surfaces(sources, &names, features)
    } else {
        let none: Vec<Finding> = Vec::new();
        proof {
            assert(finding_views(none@) =~= Seq::empty());
        }
        none
    }
}

impl Pass {
    /// A pass that has not begun.
    pub fn begin() -> (r: Pass)
        ensures
            r@ == fresh_pass(),
    {
        let r = Pass { symbols: Vec::new(), findings: Vec::new(), files: 0, analyzers: 0 };
        proof {
            assert(r@ =~= fresh_pass());
        }
        r
    }

    /// Takes one more step: reads the next changed file or, behind all of them,
    /// runs the next analyzer.
    pub fn step(self, w: &Workspace, features: &FeatureSet) -> (r: Pass)
        ensures
            r@ == stepped(w@.changed, w@.sources, w@.docs, features@, self@),
    {
        let mut st = self;
        if st.files < w.changed.len() {
            let ghost before = st.symbols@;
            let mut more = symbols_in(&w.changed[st.files], features);
            let ghost added = more@;
            st.symbols.append(&mut more);
            proof {
                assert(symbol_views(st.symbols@) =~= symbol_views(before) + symbol_views(added));
            }
            st.files = st.files + 1;
        } else if st.analyzers < 6 {
            let more = run_analyzer(&w.sources, &w.docs, &st.symbols, features, st.analyzers);
            extend(&mut st.findings, more);
            st.analyzers = st.analyzers + 1;
        }
        st
    }

    /// Ends a pass: adds the findings of the changed files and of the helper
    /// programs, and reports.
    pub fn finish(self, w: &Workspace, checks: Checks, features: &FeatureSet) -> (r: AnalysisReport)
        ensures
            r@ == finished(w@, checks, features@, self@),
    {
        let changed_files = changed_paths(&w.changed);
        if changed_files.len() == 0 {
            let r = AnalysisReport {
                changed_files,
                candidate_symbols: Vec::new(),
                findings: Vec::new(),
            };
            proof {
                assert(r@ =~= finished(w@, checks, features@, self@));
            }
            return r;
        }
        let names = names_of(&self.symbols);
        let traits = changed_trait_names(&self.symbols);
        let ghost six = finding_views(self.findings@);
        let mut out = self.findings;
        extend(&mut out, per_file_findings(&w.changed, features));
        proof {
            let a = gathered(w@.changed, file_ffi(features@));
            let b = gathered(w@.changed, file_traits(features@));
            let c = gathered(w@.changed, file_build());
            assert(six + (a + b + c) =~= six + a + b + c);
        }
        extend(
            &mut out,
            crate::semver_checks::run(checks.semver, w.semver_installed, &w.semver_output),
        );
        let ghost before = finding_views(out@);
        extend(&mut out, crate::rust_analyzer::run(checks.analyzer, w.analyzer_installed));
        proof {
            assert(finding_views(out@) =~= before);
        }
        extend(
            &mut out,
            crate::macro_expand::run(
                checks.expand,
                &traits,
                &names,
                w.expand_installed,
                &w.expanded,
            ),
        );
        AnalysisReport {
            changed_files,
            candidate_symbols: crate::finding::clone_texts(names.list()),
            findings: finish_findings(out, &w.ignore, checks.confidence_min),
        }
    }
}

fn changed_paths(changed: &Vec<ChangedFile>) -> (r: Vec<String>)
    ensures
        texts(r@) == changed_views(changed@).map_values(|c: ChangedView| c.path),
        r@.len() == changed@.len(),
{
    let mut out: Vec<String> = Vec::new();
    let mut i: usize = 0;
    while i < changed.len()
        invariant
            i <= changed@.len(),
            out@.len() == i,
            forall|j: int| 0 <= j < i ==> (#[trigger] out@[j])@ == changed@[j].path@,
        decreases changed@.len() - i,
    {
        out.push(changed[i].path.clone());
        i = i + 1;
    }
    proof {
        assert(texts(out@) =~= changed_views(changed@).map_values(|c: ChangedView| c.path));
    }
    out
}

fn keep_wanted(findings: Vec<Finding>, ignore: &IgnoreSet, min: i64) -> (r: Vec<Finding>)
    ensures
        finding_views(r@) == finding_views(findings@).filter(wanted(ignore@, min as int)),
{
    let ghost p = |f: Finding| wanted(ignore@, min as int)(f@);
    let mut keep: Vec<bool> = Vec::new();
    let mut i: usize = 0;
    while i < findings.len()
        invariant
            i <= findings@.len(),
            keep@.len() == i,
            p == (|f: Finding| wanted(ignore@, min as int)(f@)),
            forall|j: int| 0 <= j < i ==> keep@[j] == p(#[trigger] findings@[j]),
        decreases findings@.len() - i,
    {
        let visible = match findings[i].primary_path() {
            Some(path) => !ignore.is_ignored(path),
            None => true,
        };
        let sure = findings[i].confidence as i64 >= min;
        keep.push(visible && sure);
        i = i + 1;
    }
    let ghost all = findings@;
    let r = retain_marked(findings, &keep, Ghost(p));
    proof {
        lemma_filter_map(all, p, |f: Finding| f@, wanted(ignore@, min as int));
    }
    r
}

fn assign_ids(findings: Vec<Finding>) -> (r: Vec<Finding>)
    ensures
        finding_views(r@) == finding_views(findings@).map_values(
            |f: FindingView| identified(f),
        ),
{
    let ghost all = findings@;
    let n: usize = findings.len();
    let mut back = crate::order::reversed(findings);
    let mut out: Vec<Finding> = Vec::new();
    let mut i: usize = 0;
    while i < n
        invariant
            i <= n,
            n == all.len(),
            back@.len() == n - i,
            forall|j: int| 0 <= j < back@.len() ==> #[trigger] back@[j] == all[all.len() - 1 - j],
            out@.len() == i,
            forall|j: int| 0 <= j < i ==> (#[trigger] out@[j])@ == identified(all[j]@),
        decreases n - i,
    {
        let x = back.pop().unwrap();
        let id = x.content_id();
        out.push(x.with_id(id));
        i = i + 1;
    }
    proof {
        assert(finding_views(out@) =~= finding_views(all).map_values(
            |f: FindingView| identified(f),
        ));
    }
    out
}

/// What is reported of raw findings.
pub fn finish_findings(findings: Vec<Finding>, ignore: &IgnoreSet, confidence_min: i64) -> (r: Vec<
    Finding,
>)
    ensures
        finding_views(r@) == reported(
            finding_views(findings@),
            ignore@,
            confidence_min as int,
        ),
{
    let mut all = findings;
    dedup_syn_under_proven(&mut all);
    dedup_expanded_under_raw(&mut all);
    rank_findings(assign_ids(keep_wanted(all, ignore, confidence_min)))
}

/// The report on a workspace under a feature set.
pub fn analyze_inner(w: &Workspace, checks: Checks, features: &FeatureSet) -> (r: AnalysisReport)
    ensures
        r@ == analysis(w@, checks, features@),
{
    let ghost c = w@.changed;
    let ghost f = features@;
    let mut pass = Pass::begin();
    let mut i: usize = 0;
    while i < w.changed.len()
        invariant
            i <= w.changed@.len(),
            c == w@.changed,
            f == features@,
            pass@ == after_steps(c, w@.sources, w@.docs, f, i as nat),
        decreases w.changed@.len() - i,
    {
        pass = pass.step(w, features);
        i = i + 1;
    }
    let mut k: usize = 0;
    while k < 6
        invariant
            k <= 6,
            c == w@.changed,
            f == features@,
            pass@ == after_steps(c, w@.sources, w@.docs, f, c.len() + k as nat),
        decreases 6 - k,
    {
        pass = pass.step(w, features);
        k = k + 1;
    }
    proof {
        steps_make_the_report(w@, checks, f);
    }
    pass.finish(w, checks, features)
}

/// The symbols and findings after some files and analyzers.
proof fn lemma_after_steps(
    c: Seq<ChangedView>,
    sources: Seq<FileView>,
    docs: Seq<FileView>,
    f: FeaturesView,
    n: nat,
)
    requires
        n <= c.len(),
    ensures
        after_steps(c, sources, docs, f, n) == (PassView {
            symbols: gathered(c.take(n as int), file_symbols(f)),
            findings: Seq::empty(),
            files: n,
            analyzers: 0,
        }),
    decreases n,
{
    if n > 0 {
        lemma_after_steps(c, sources, docs, f, (n - 1) as nat);
        assert(c.take(n as int).drop_last() =~= c.take(n - 1));
        assert(c.take(n as int).last() == c[n - 1]);
    }
}

/// A pass that takes a step for each changed file and one for each analyzer,
/// and then ends, gives the report on the workspace.
pub proof fn steps_make_the_report(w: WorkspaceView, checks: Checks, f: FeaturesView)
    ensures
        finished(
            w,
            checks,
            f,
            after_steps(w.changed, w.sources, w.docs, f, w.changed.len() + analyzer_count()),
        ) == analysis(w, checks, f),
{
    let c = w.changed;
    let n = c.len();
    lemma_after_steps(c, w.sources, w.docs, f, n);
    assert(c.take(n as int) =~= c);
    let s = symbols_of(c, f);
    let st0 = after_steps(c, w.sources, w.docs, f, n);
    let st1 = after_steps(c, w.sources, w.docs, f, n + 1);
    let st2 = after_steps(c, w.sources, w.docs, f, n + 2);
    let st3 = after_steps(c, w.sources, w.docs, f, n + 3);
    let st4 = after_steps(c, w.sources, w.docs, f, n + 4);
    let st5 = after_steps(c, w.sources, w.docs, f, n + 5);
    let st6 = after_steps(c, w.sources, w.docs, f, n + 6);
    assert(st1 == stepped(c, w.sources, w.docs, f, st0));
    assert(st2 == stepped(c, w.sources, w.docs, f, st1));
    assert(st3 == stepped(c, w.sources, w.docs, f, st2));
    assert(st4 == stepped(c, w.sources, w.docs, f, st3));
    assert(st5 == stepped(c, w.sources, w.docs, f, st4));
    assert(st6 == stepped(c, w.sources, w.docs, f, st5));
    let names = symbol_names(s);
    let traits = trait_names(s);
    assert(st1.findings =~= affected_tests(w.sources, names, f));
    assert(st6.symbols == s);
    assert(st6.findings =~= affected_tests(w.sources, names, f) + trait_impls(w.sources, traits, f)
        + derive_impls(w.sources, traits, f) + dyn_dispatch_sites(w.sources, traits, f)
        + doc_drift(w.docs, w.sources, names) + runtime_surfaces(w.sources, names, f));
    assert(all_findings(w, checks, f, st6) == raw_findings(w, checks, f));
}

// ---------------------------------------------------------------------------
// Files of a report
// ---------------------------------------------------------------------------

/// The files of findings that have one.
pub open spec fn finding_paths(s: Seq<FindingView>) -> Seq<Seq<char>>
    decreases s.len(),
{
    if s.len() == 0 {
        Seq::empty()
    } else {
        match kind_path(s.last().kind) {
            Some(p) => finding_paths(s.drop_last()).push(p),
            None => finding_paths(s.drop_last()),
        }
    }
}

/// The files that a report implicates: the changed ones and those of its
/// findings, in path order, each once.
pub fn context_file_list(report: &AnalysisReport) -> (r: Vec<String>)
    ensures
        texts(r@) == path_set(report@.changed_files + finding_paths(report@.findings)),
{
    let ghost s = report@.findings;
    let ghost start = report@.changed_files;
    let mut all = crate::finding::clone_texts(&report.changed_files);
    let mut i: usize = 0;
    proof {
        assert(start + finding_paths(s.take(0)) =~= start);
    }
    while i < report.findings.len()
        invariant
            i <= report.findings@.len(),
            s == finding_views(report.findings@),
            texts(all@) == start + finding_paths(s.take(i as int)),
        decreases report.findings@.len() - i,
    {
        proof {
            assert(s.take(i + 1).drop_last() =~= s.take(i as int));
            assert(s.take(i + 1).last() == report.findings@[i as int]@);
        }
        match report.findings[i].primary_path() {
            Some(p) => {
                let p = p.to_owned();
                proof {
                    let rest = finding_paths(s.take(i as int));
                    assert(texts(all@.push(p)) =~= texts(all@).push(p@));
                    assert((start + rest).push(p@) =~= start + rest.push(p@));
                }
                all.push(p);
            },
            None => {},
        }
        i = i + 1;
    }
    proof {
        assert(s.take(report.findings@.len() as int) =~= s);
    }
    ordered_paths(&all)
}

// ---------------------------------------------------------------------------
// Laws
// ---------------------------------------------------------------------------

/// Whether a raw finding gets through: nothing makes it redundant, and it is
/// wanted.
pub open spec fn gets_through(
    raw: Seq<FindingView>,
    patterns: Seq<PatternView>,
    min: int,
    f: FindingView,
) -> bool {
    &&& raw.contains(f)
    &&& !crate::dedup::shadowed(raw, f)
    &&& !crate::dedup::covered_by_raw(unshadowed(raw), f)
    &&& wanted(patterns, min)(f)
}

/// Whether `r` is a raw finding that gets through, with its id.
pub open spec fn stands_for_raw(
    raw: Seq<FindingView>,
    patterns: Seq<PatternView>,
    min: int,
    r: FindingView,
) -> bool {
    exists|f: FindingView| #[trigger] gets_through(raw, patterns, min, f) && r == identified(f)
}

/// A report holds exactly the raw findings that get through, each with its id.
pub proof fn reports_are_exact(raw: Seq<FindingView>, patterns: Seq<PatternView>, min: int)
    ensures
        forall|r: FindingView| #[trigger]
            reported(raw, patterns, min).contains(r) <==> stands_for_raw(raw, patterns, min, r),
{
    let fresh = unshadowed(raw);
    let p = |f: FindingView| !crate::dedup::shadowed(raw, f);
    let q = |f: FindingView| !crate::dedup::covered_by_raw(fresh, f);
    let kept = without_covered(fresh).filter(wanted(patterns, min));
    let g = |f: FindingView| identified(f);
    let named = kept.map_values(g);
    assert forall|f: FindingView| #[trigger] kept.contains(f) <==> gets_through(
        raw,
        patterns,
        min,
        f,
    ) by {
        crate::order::lemma_filter_member(raw, p, f);
        crate::order::lemma_filter_member(fresh, q, f);
        crate::order::lemma_filter_member(without_covered(fresh), wanted(patterns, min), f);
    }
    assert forall|r: FindingView| #[trigger]
        reported(raw, patterns, min).contains(r) <==> stands_for_raw(
        raw,
        patterns,
        min,
        r,
    ) by {
        crate::ranking::lemma_ranked_contains(named, r);
        if named.contains(r) {
            let i = named.index_of(r);
            assert(kept.contains(kept[i]));
            assert(gets_through(raw, patterns, min, kept[i]));
        }
        if stands_for_raw(raw, patterns, min, r) {
            let f = choose|f: FindingView| #[trigger]
                gets_through(raw, patterns, min, f) && r == identified(f);
            assert(kept.contains(f));
            let i = kept.index_of(f);
            assert(named[i] == r);
        }
    }
}

/// Every reported finding carries the id that its content determines, is
/// confident enough, and stands in no ignored file.
pub proof fn reported_findings_are_wanted(
    raw: Seq<FindingView>,
    patterns: Seq<PatternView>,
    min: int,
)
    ensures
        forall|r: FindingView| #[trigger]
            reported(raw, patterns, min).contains(r) ==> r.id == content_id_of(r.kind, r.evidence)
                && r.confidence >= min && (kind_path(r.kind) is Some ==> !ignores(
                patterns,
                kind_path(r.kind)->0,
            )),
{
    reports_are_exact(raw, patterns, min);
    assert forall|r: FindingView| #[trigger] reported(raw, patterns, min).contains(r) implies r.id
        == content_id_of(r.kind, r.evidence) && r.confidence >= min && (kind_path(r.kind) is Some
        ==> !ignores(patterns, kind_path(r.kind)->0)) by {
        let f = choose|f: FindingView| #[trigger]
            gets_through(raw, patterns, min, f) && r == identified(f);
        assert(wanted(patterns, min)(f));
    }
}

/// A higher threshold only takes findings out of a report.
pub proof fn thresholds_are_nested(
    raw: Seq<FindingView>,
    patterns: Seq<PatternView>,
    low: int,
    high: int,
)
    requires
        low <= high,
    ensures
        forall|r: FindingView| #[trigger]
            reported(raw, patterns, high).contains(r) ==> reported(raw, patterns, low).contains(r),
{
    reports_are_exact(raw, patterns, low);
    reports_are_exact(raw, patterns, high);
    assert forall|r: FindingView| #[trigger] reported(raw, patterns, high).contains(r) implies
        reported(raw, patterns, low).contains(r) by {
        let f = choose|f: FindingView| #[trigger]
            gets_through(raw, patterns, high, f) && r == identified(f);
        assert(wanted(patterns, high)(f));
        assert(gets_through(raw, patterns, low, f));
    }
}

/// A finding without a file, such as one of `cargo-semver-checks`, is left out
/// by the threshold alone.
pub proof fn findings_without_a_file_are_never_ignored(
    raw: Seq<FindingView>,
    patterns: Seq<PatternView>,
    min: int,
    f: FindingView,
)
    requires
        raw.contains(f),
        kind_path(f.kind) is None,
        f.confidence >= min,
    ensures
        reported(raw, patterns, min).contains(identified(f)),
{
    reports_are_exact(raw, patterns, min);
    assert(gets_through(raw, patterns, min, f));
}

/// Without changed files there is nothing to report, whatever else there is.
pub proof fn no_change_means_no_finding(w: WorkspaceView, checks: Checks, f: FeaturesView)
    requires
        w.changed.len() == 0,
    ensures
        analysis(w, checks, f).changed_files.len() == 0,
        analysis(w, checks, f).candidate_symbols.len() == 0,
        analysis(w, checks, f).findings.len() == 0,
{
}

/// The list of implicated files is in path order without repetition, names
/// only changed files and files of findings, and leaves none of them out.
pub proof fn context_lists_every_file_once(report: ReportView)
    ensures
        ({
            let given = report.changed_files + finding_paths(report.findings);
            let list = path_set(given);
            &&& crate::order::strictly_in_order(list, crate::paths::path_order())
            &&& forall|p: Seq<char>| #[trigger] list.contains(p) ==> given.contains(p)
            &&& forall|p: Seq<char>| #[trigger]
                given.contains(p) ==> exists|i: int|
                    0 <= i < list.len() && crate::paths::same_path(#[trigger] list[i], p)
        }),
{
    let given = report.changed_files + finding_paths(report.findings);
    let list = path_set(given);
    crate::paths::path_set_is_exact(given);
    assert forall|p: Seq<char>| #[trigger] given.contains(p) implies exists|i: int|
        0 <= i < list.len() && crate::paths::same_path(#[trigger] list[i], p) by {
        let i = choose|i: int|
            0 <= i < list.len() && !crate::paths::path_lt(#[trigger] list[i], p)
                && !crate::paths::path_lt(p, list[i]);
        crate::paths::unordered_paths_are_the_same(list[i], p);
    }
}

/// What is gathered comes file by file, in order.
pub proof fn files_are_gathered_in_order<T>(
    a: Seq<ChangedView>,
    b: Seq<ChangedView>,
    c: ChangedView,
    g: spec_fn(ChangedView) -> Seq<T>,
)
    ensures
        gathered(a + b, g) == gathered(a, g) + gathered(b, g),
        gathered(seq![c], g) == g(c),
        gathered(Seq::empty(), g).len() == 0,
    decreases b.len(),
{
    assert(seq![c].drop_last() =~= Seq::empty());
    assert(gathered(Seq::<ChangedView>::empty(), g) =~= Seq::empty());
    assert(gathered(seq![c], g) =~= g(c));
    if b.len() > 0 {
        assert((a + b).drop_last() =~= a + b.drop_last());
        files_are_gathered_in_order(a, b.drop_last(), c, g);
        assert(gathered(a + b, g) =~= gathered(a, g) + gathered(b, g));
    } else {
        assert(a + b =~= a);
        assert(gathered(a, g) + gathered(b, g) =~= gathered(a, g));
    }
}

proof fn lemma_gathered_member<T>(c: Seq<ChangedView>, g: spec_fn(ChangedView) -> Seq<T>, x: T)
    ensures
        gathered(c, g).contains(x) <==> exists|i: int|
            0 <= i < c.len() && g(#[trigger] c[i]).contains(x),
    decreases c.len(),
{
    if c.len() > 0 {
        let head = c.drop_last();
        lemma_gathered_member(head, g, x);
        crate::scan::lemma_contains_add(gathered(head, g), g(c.last()), x);
        if gathered(head, g).contains(x) {
            let i = choose|i: int| 0 <= i < head.len() && g(#[trigger] head[i]).contains(x);
            assert(c[i] == head[i]);
        }
        if g(c.last()).contains(x) {
            assert(c[c.len() - 1] == c.last());
        }
        if exists|i: int| 0 <= i < c.len() && g(#[trigger] c[i]).contains(x) {
            let i = choose|i: int| 0 <= i < c.len() && g(#[trigger] c[i]).contains(x);
            if i < head.len() {
                assert(head[i] == c[i]);
            }
        }
    }
}

/// A symbol is changed in a file just where a comparison of both versions shows
/// it; where there is none, where the working tree has it; and never where git
/// could not be asked.
pub proof fn symbols_change_where_versions_differ(c: ChangedView, f: FeaturesView, s: SymbolView)
    ensures
        c.head is Failed ==> !file_symbols(f)(c).contains(s),
        !(c.head is Failed) ==> (file_diff(c.worktree, head_text(c.head), f) matches Some(d)
            ==> (file_symbols(f)(c).contains(s) <==> exists|i: int|
            0 <= i < d.len() && (#[trigger] d[i]).name == s.name && d[i].kind == s.kind)),
        !(c.head is Failed) && file_diff(c.worktree, head_text(c.head), f) is None ==> (
        file_symbols(f)(c).contains(s) <==> (c.worktree matches Some(w) && (source_symbols(
            w,
            f,
        ) matches Some(all) && all.contains(s)))),
{
    if !(c.head is Failed) {
        if let Some(d) = file_diff(c.worktree, head_text(c.head), f) {
            let m = change_symbols(d);
            if m.contains(s) {
                let i = m.index_of(s);
                assert(d[i].name == s.name);
            }
            if exists|i: int|
                0 <= i < d.len() && (#[trigger] d[i]).name == s.name && d[i].kind == s.kind {
                let i = choose|i: int|
                    0 <= i < d.len() && (#[trigger] d[i]).name == s.name && d[i].kind == s.kind;
                assert(m[i] == s);
            }
        }
    }
}

/// The candidate symbols of a run are just the names of the symbols that change
/// in one of its files, in order, each once.
pub proof fn candidates_are_changed_symbols(
    w: WorkspaceView,
    checks: Checks,
    f: FeaturesView,
    name: Seq<char>,
)
    ensures
        crate::names::increasing(analysis(w, checks, f).candidate_symbols),
        analysis(w, checks, f).candidate_symbols.contains(name) <==> exists|i: int, s: SymbolView|
            0 <= i < w.changed.len() && #[trigger] file_symbols(f)(w.changed[i]).contains(s)
                && s.name == name,
{
    let symbols = symbols_of(w.changed, f);
    let names = symbols.map_values(|v: SymbolView| v.name);
    let g = file_symbols(f);
    crate::names::lemma_name_set(names);
    if w.changed.len() > 0 {
        if names.contains(name) {
            let k = names.index_of(name);
            assert(symbols.contains(symbols[k]));
            lemma_gathered_member(w.changed, g, symbols[k]);
            let i = choose|i: int|
                0 <= i < w.changed.len() && g(#[trigger] w.changed[i]).contains(symbols[k]);
            assert(file_symbols(f)(w.changed[i]).contains(symbols[k]));
        }
        if exists|i: int, s: SymbolView|
            0 <= i < w.changed.len() && #[trigger] file_symbols(f)(w.changed[i]).contains(s)
                && s.name == name {
            let (i, s) = choose|i: int, s: SymbolView|
                0 <= i < w.changed.len() && #[trigger] file_symbols(f)(w.changed[i]).contains(s)
                    && s.name == name;
            assert(g(w.changed[i]).contains(s));
            lemma_gathered_member(w.changed, g, s);
            let k = symbols.index_of(s);
            assert(names[k] == name);
        }
    }
}

/// Every check adds what it finds, and nothing else is found.
pub proof fn every_check_is_heard(
    w: WorkspaceView,
    checks: Checks,
    f: FeaturesView,
    x: FindingView,
)
    ensures
        ({
            let symbols = symbols_of(w.changed, f);
            let names = symbol_names(symbols);
            let traits = trait_names(symbols);
            raw_findings(w, checks, f).contains(x) <==> affected_tests(w.sources, names, f).contains(
                x,
            ) || trait_impls(w.sources, traits, f).contains(x) || derive_impls(
                w.sources,
                traits,
                f,
            ).contains(x) || dyn_dispatch_sites(w.sources, traits, f).contains(x) || doc_drift(
                w.docs,
                w.sources,
                names,
            ).contains(x) || runtime_surfaces(w.sources, names, f).contains(x) || (exists|i: int|
                0 <= i < w.changed.len() && file_ffi(f)(#[trigger] w.changed[i]).contains(x)) || (
            exists|i: int|
                0 <= i < w.changed.len() && file_traits(f)(#[trigger] w.changed[i]).contains(x))
                || (exists|i: int|
                0 <= i < w.changed.len() && file_build()(#[trigger] w.changed[i]).contains(x))
                || semver_run(checks.semver, w.semver_installed, w.semver_output).contains(x)
                || expansion_run(
                checks.expand,
                traits,
                names,
                w.expand_installed,
                w.expanded,
            ).contains(x)
        }),
{
    let symbols = symbols_of(w.changed, f);
    let names = symbol_names(symbols);
    let traits = trait_names(symbols);
    let p1 = affected_tests(w.sources, names, f);
    let p2 = trait_impls(w.sources, traits, f);
    let p3 = derive_impls(w.sources, traits, f);
    let p4 = dyn_dispatch_sites(w.sources, traits, f);
    let p5 = doc_drift(w.docs, w.sources, names);
    let p6 = runtime_surfaces(w.sources, names, f);
    let p7 = gathered(w.changed, file_ffi(f));
    let p8 = gathered(w.changed, file_traits(f));
    let p9 = gathered(w.changed, file_build());
    let p10 = semver_run(checks.semver, w.semver_installed, w.semver_output);
    let p11 = expansion_run(checks.expand, traits, names, w.expand_installed, w.expanded);
    lemma_gathered_member(w.changed, file_ffi(f), x);
    lemma_gathered_member(w.changed, file_traits(f), x);
    lemma_gathered_member(w.changed, file_build(), x);
    let s2 = p1 + p2;
    let s3 = s2 + p3;
    let s4 = s3 + p4;
    let s5 = s4 + p5;
    let s6 = s5 + p6;
    let s7 = s6 + p7;
    let s8 = s7 + p8;
    let s9 = s8 + p9;
    let s10 = s9 + p10;
    crate::scan::lemma_contains_add(p1, p2, x);
    crate::scan::lemma_contains_add(s2, p3, x);
    crate::scan::lemma_contains_add(s3, p4, x);
    crate::scan::lemma_contains_add(s4, p5, x);
    crate::scan::lemma_contains_add(s5, p6, x);
    crate::scan::lemma_contains_add(s6, p7, x);
    crate::scan::lemma_contains_add(s7, p8, x);
    crate::scan::lemma_contains_add(s8, p9, x);
    crate::scan::lemma_contains_add(s9, p10, x);
    crate::scan::lemma_contains_add(s10, p11, x);
}

/// A changed file gives a finding as a build script just where it is called
/// `build.rs`, and gives what its comparison shows of signatures and traits
/// wherever git could be asked.
pub proof fn changed_files_are_checked_each(c: ChangedView, f: FeaturesView, x: FindingView)
    ensures
        file_build()(c).len() <= 1,
        file_build()(c).contains(x) ==> {
            &&& x.kind == (KindView::BuildScriptChanged { file: c.path })
            &&& x.severity is High
            &&& x.tier is Likely
            &&& x.confidence == 90
        },
        file_build()(c).len() == 1 <==> file_name_spec(c.path) == Some("build.rs"@),
        !(c.head is Failed) ==> file_ffi(f)(c) == ffi_changes(
            c.worktree,
            head_text(c.head),
            c.path,
            f,
        ),
        !(c.head is Failed) ==> file_traits(f)(c).len() == file_records(
            c.worktree,
            head_text(c.head),
            c.path,
            f,
        ).len(),
        c.head is Failed ==> file_ffi(f)(c).len() == 0 && file_traits(f)(c).len() == 0,
        !(c.head is Failed) ==> (head_text(c.head) is Some <==> c.head is Text),
        c.head matches RevisionView::Text(t) ==> head_text(c.head) == Some(t),
{
    if file_build()(c).contains(x) {
        assert(x == build_finding(c.path));
    }
}

/// A finding that nothing makes redundant is reported just where it is confident
/// enough and stands in no ignored file; its id comes from its content and
/// nothing else of it changes.
pub proof fn wanted_findings_are_reported(
    raw: Seq<FindingView>,
    patterns: Seq<PatternView>,
    min: int,
    f: FindingView,
)
    requires
        raw.contains(f),
        f.tier is Proven,
        !(f.kind is TestReference),
    ensures
        ({
            let r = FindingView { id: content_id_of(f.kind, f.evidence), ..f };
            f.confidence >= min && (kind_path(f.kind) is None || !ignores(
                patterns,
                kind_path(f.kind)->0,
            )) ==> reported(raw, patterns, min).contains(r)
        }),
{
    reports_are_exact(raw, patterns, min);
    if f.confidence >= min && (kind_path(f.kind) is None || !ignores(
        patterns,
        kind_path(f.kind)->0,
    )) {
        assert(gets_through(raw, patterns, min, f));
        assert(stands_for_raw(raw, patterns, min, identified(f)));
    }
}

/// The report on changed files lists their paths in order, and reports of what
/// the checks found just what is wanted.
pub proof fn reports_list_the_changed_files(w: WorkspaceView, checks: Checks, f: FeaturesView)
    ensures
        analysis(w, checks, f).changed_files.len() == w.changed.len(),
        forall|i: int|
            0 <= i < w.changed.len() ==> #[trigger] analysis(w, checks, f).changed_files[i]
                == w.changed[i].path,
        w.changed.len() > 0 ==> analysis(w, checks, f).findings == reported(
            raw_findings(w, checks, f),
            w.ignore,
            checks.confidence_min as int,
        ),
{
}

/// The files of findings are taken finding by finding.
pub proof fn finding_files_are_listed_in_order(
    a: Seq<FindingView>,
    b: Seq<FindingView>,
    f: FindingView,
)
    ensures
        finding_paths(a + b) == finding_paths(a) + finding_paths(b),
        kind_path(f.kind) matches Some(p) ==> finding_paths(seq![f]) == seq![p],
        kind_path(f.kind) is None ==> finding_paths(seq![f]).len() == 0,
    decreases b.len(),
{
    assert(seq![f].drop_last() =~= Seq::empty());
    assert(finding_paths(Seq::<FindingView>::empty()) =~= Seq::empty());
    if let Some(p) = kind_path(f.kind) {
        assert(finding_paths(seq![f]) =~= seq![p]);
    }
    if b.len() > 0 {
        assert((a + b).drop_last() =~= a + b.drop_last());
        finding_files_are_listed_in_order(a, b.drop_last(), f);
        assert(finding_paths(a + b) =~= finding_paths(a) + finding_paths(b));
    } else {
        assert(a + b =~= a);
        assert(finding_paths(a) + finding_paths(b) =~= finding_paths(a));
    }
}

} // verus!
