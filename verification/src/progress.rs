//! Progress events of a run.
use crate::text::texts;
use vstd::prelude::*;
use vstd::string::*;

verus! {

/// One step of a run.
///
/// The stage is one of a fixed set of words: `symbols` once for each changed
/// file, `analyzers` once for each analyzer, `semver_checks`, `rust_analyzer`
/// and `macro_expand` where the check was asked for, `powerset_no_default` and
/// `powerset_all_features` between the passes of a comparison of feature sets,
/// and `done` at the end of each pass.
#[derive(Debug, Clone, Copy, PartialEq, Eq)]
pub struct ProgressEvent<'a> {
    pub stage: &'a str,
    pub current: usize,
    pub total: usize,
    pub detail: Option<&'a str>,
}

/// A [`ProgressEvent`] as plain data.
#[verifier::ext_equal]
pub struct EventView {
    pub stage: Seq<char>,
    pub current: nat,
    pub total: nat,
    pub detail: Option<Seq<char>>,
}

impl<'a> View for ProgressEvent<'a> {
    type V = EventView;

    open spec fn view(&self) -> EventView {
        EventView {
            stage: self.stage@,
            current: self.current as nat,
            total: self.total as nat,
            detail: crate::diff::opt_str(self.detail),
        }
    }
}

/// Events as plain data.
pub open spec fn event_views(s: Seq<ProgressEvent<'_>>) -> Seq<EventView> {
    s.map_values(|e: ProgressEvent<'_>| e@)
}

/// The analyzers, in the order in which they run.
pub open spec fn analyzer_stages() -> Seq<Seq<char>> {
    seq![
        "tests_scan"@,
        "traits"@,
        "derive"@,
        "dyn_dispatch"@,
        "doc_drift"@,
        "adapters"@,
    ]
}

/// One event for each changed file, with the number of files before it.
pub open spec fn symbol_events(files: Seq<Seq<char>>) -> Seq<EventView> {
    Seq::new(
        files.len(),
        |i: int|
            EventView {
                stage: "symbols"@,
                current: i as nat,
                total: files.len(),
                detail: Some(files[i]),
            },
    )
}

/// One event for each analyzer, with the number of analyzers before it.
pub open spec fn analyzer_events() -> Seq<EventView> {
    Seq::new(
        analyzer_stages().len(),
        |i: int|
            EventView {
                stage: "analyzers"@,
                current: i as nat,
                total: analyzer_stages().len(),
                detail: Some(analyzer_stages()[i]),
            },
    )
}

/// An event without detail, where it is wanted.
pub open spec fn one_event(wanted: bool, stage: Seq<char>, current: nat, total: nat) -> Seq<
    EventView,
> {
    if wanted {
        seq![EventView { stage, current, total, detail: None }]
    } else {
        Seq::empty()
    }
}

/// The events of one pass over changed files. Without any, only the end is
/// told.
pub open spec fn pass_events(
    files: Seq<Seq<char>>,
    semver: bool,
    analyzer: bool,
    expand: bool,
) -> Seq<EventView> {
    if files.len() == 0 {
        one_event(true, "done"@, 1, 1)
    } else {
        symbol_events(files) + analyzer_events() + one_event(semver, "semver_checks"@, 1, 1)
            + one_event(analyzer, "rust_analyzer"@, 1, 1) + one_event(
            expand,
            "macro_expand"@,
            0,
            1,
        ) + one_event(true, "done"@, 1, 1)
    }
}

/// The events of a run: those of one pass, or of three with a word between.
pub open spec fn run_events(
    files: Seq<Seq<char>>,
    semver: bool,
    analyzer: bool,
    expand: bool,
    powerset: bool,
) -> Seq<EventView> {
    let pass = pass_events(files, semver, analyzer, expand);
    if powerset {
        pass + one_event(true, "powerset_no_default"@, 1, 3) + pass + one_event(
            true,
            "powerset_all_features"@,
            2,
            3,
        ) + pass
    } else {
        pass
    }
}

fn plain<'a>(stage: &'a str, current: usize, total: usize) -> (r: ProgressEvent<'a>)
    ensures
        r@ == (EventView {
            stage: stage@,
            current: current as nat,
            total: total as nat,
            detail: None,
        }),
{
    ProgressEvent { stage, current, total, detail: None }
}

fn add_one<'a>(out: &mut Vec<ProgressEvent<'a>>, e: ProgressEvent<'a>)
    ensures
        event_views(final(out)@) == event_views(old(out)@).push(e@),
{
    proof {
        assert(event_views(out@.push(e)) =~= event_views(out@).push(e@));
    }
    out.push(e);
}

fn add_pass<'a>(
    out: &mut Vec<ProgressEvent<'a>>,
    files: &'a Vec<String>,
    semver: bool,
    analyzer: bool,
    expand: bool,
)
    ensures
        event_views(final(out)@) == event_views(old(out)@) + pass_events(
            texts(files@),
            semver,
            analyzer,
            expand,
        ),
{
    let ghost start = event_views(out@);
    let ghost fs = texts(files@);
    proof {
        assert(fs.len() == files@.len());
    }
    if files.len() == 0 {
        add_one(out, plain("done", 1, 1));
        proof {
            assert(event_views(out@) =~= start + pass_events(fs, semver, analyzer, expand));
        }
        return;
    }
    let total: usize = files.len();
    let mut i: usize = 0;
    proof {
        assert(start + symbol_events(fs).take(0) =~= start);
    }
    while i < total
        invariant
            i <= total,
            total == files@.len(),
            fs == texts(files@),
            event_views(out@) == start + symbol_events(fs).take(i as int),
        decreases total - i,
    {
        let e = ProgressEvent {
            stage: "symbols",
            current: i,
            total,
            detail: Some(files[i].as_str()),
        };
        add_one(out, e);
        proof {
            let s = symbol_events(fs);
            assert(s[i as int] =~= e@);
            assert(event_views(out@) =~= start + s.take(i + 1));
        }
        i = i + 1;
    }
    let ghost told = start + symbol_events(fs);
    proof {
        assert(symbol_events(fs).take(total as int) =~= symbol_events(fs));
    }
    add_one(out, ProgressEvent { stage: "analyzers", current: 0, total: 6, detail: Some("tests_scan") });
    add_one(out, ProgressEvent { stage: "analyzers", current: 1, total: 6, detail: Some("traits") });
    add_one(out, ProgressEvent { stage: "analyzers", current: 2, total: 6, detail: Some("derive") });
    add_one(out, ProgressEvent { stage: "analyzers", current: 3, total: 6, detail: Some("dyn_dispatch") });
    add_one(out, ProgressEvent { stage: "analyzers", current: 4, total: 6, detail: Some("doc_drift") });
    add_one(out, ProgressEvent { stage: "analyzers", current: 5, total: 6, detail: Some("adapters") });
    proof {
        assert(event_views(out@) =~= told + analyzer_events());
    }
    let ghost scanned = told + analyzer_events();
    if semver {
        add_one(out, plain("semver_checks", 1, 1));
    }
    if analyzer {
        add_one(out, plain("rust_analyzer", 1, 1));
    }
    if expand {
        add_one(out, plain("macro_expand", 0, 1));
    }
    add_one(out, plain("done", 1, 1));
    proof {
        assert(event_views(out@) =~= scanned + one_event(semver, "semver_checks"@, 1, 1)
            + one_event(analyzer, "rust_analyzer"@, 1, 1) + one_event(
            expand,
            "macro_expand"@,
            0,
            1,
        ) + one_event(true, "done"@, 1, 1));
        assert(event_views(out@) =~= start + pass_events(fs, semver, analyzer, expand));
    }
}

/// The events of a run, in order.
pub fn progress_events<'a>(
    changed_files: &'a Vec<String>,
    semver: bool,
    analyzer: bool,
    expand: bool,
    powerset: bool,
) -> (r: Vec<ProgressEvent<'a>>)
    ensures
        event_views(r@) == run_events(
            texts(changed_files@),
            semver,
            analyzer,
            expand,
            powerset,
        ),
{
    let mut out: Vec<ProgressEvent<'a>> = Vec::new();
    let ghost pass = pass_events(texts(changed_files@), semver, analyzer, expand);
    proof {
        assert(event_views(out@) =~= Seq::empty());
        assert(Seq::<EventView>::empty() + pass =~= pass);
    }
    add_pass(&mut out, changed_files, semver, analyzer, expand);
    if powerset {
        add_one(&mut out, plain("powerset_no_default", 1, 3));
        proof {
            assert(event_views(out@) =~= pass + one_event(true, "powerset_no_default"@, 1, 3));
        }
        add_pass(&mut out, changed_files, semver, analyzer, expand);
        let ghost so_far = event_views(out@);
        add_one(&mut out, plain("powerset_all_features", 2, 3));
        proof {
            assert(event_views(out@) =~= so_far + one_event(
                true,
                "powerset_all_features"@,
                2,
                3,
            ));
        }
        add_pass(&mut out, changed_files, semver, analyzer, expand);
    }
    out
}

/// No event counts past its total.
pub open spec fn within_totals(s: Seq<EventView>) -> bool {
    forall|i: int| 0 <= i < s.len() ==> (#[trigger] s[i]).current <= s[i].total
}

proof fn lemma_within_totals(a: Seq<EventView>, b: Seq<EventView>)
    requires
        within_totals(a),
        within_totals(b),
    ensures
        within_totals(a + b),
{
    let s = a + b;
    assert forall|i: int| 0 <= i < s.len() implies (#[trigger] s[i]).current <= s[i].total by {
        if i < a.len() {
            assert(s[i] == a[i]);
        } else {
            assert(s[i] == b[i - a.len()]);
        }
    }
}

proof fn lemma_pass_ends(files: Seq<Seq<char>>, semver: bool, analyzer: bool, expand: bool)
    ensures
        within_totals(pass_events(files, semver, analyzer, expand)),
        pass_events(files, semver, analyzer, expand).len() > 0,
        pass_events(files, semver, analyzer, expand).last() == (EventView {
            stage: "done"@,
            current: 1,
            total: 1,
            detail: None,
        }),
{
    let done = one_event(true, "done"@, 1, 1);
    assert(within_totals(done));
    if files.len() > 0 {
        let a = symbol_events(files);
        let b = analyzer_events();
        let c = one_event(semver, "semver_checks"@, 1, 1);
        let d = one_event(analyzer, "rust_analyzer"@, 1, 1);
        let e = one_event(expand, "macro_expand"@, 0, 1);
        assert(within_totals(a));
        assert(within_totals(b));
        assert(within_totals(c));
        assert(within_totals(d));
        assert(within_totals(e));
        lemma_within_totals(a, b);
        lemma_within_totals(a + b, c);
        lemma_within_totals(a + b + c, d);
        lemma_within_totals(a + b + c + d, e);
        lemma_within_totals(a + b + c + d + e, done);
        assert((a + b + c + d + e + done).last() == done[0]);
    }
}

/// Every run ends with `done`, complete, and no event counts past its total.
pub proof fn runs_end_with_done(
    files: Seq<Seq<char>>,
    semver: bool,
    analyzer: bool,
    expand: bool,
    powerset: bool,
)
    ensures
        within_totals(run_events(files, semver, analyzer, expand, powerset)),
        run_events(files, semver, analyzer, expand, powerset).len() > 0,
        run_events(files, semver, analyzer, expand, powerset).last() == (EventView {
            stage: "done"@,
            current: 1,
            total: 1,
            detail: None,
        }),
{
    lemma_pass_ends(files, semver, analyzer, expand);
    let pass = pass_events(files, semver, analyzer, expand);
    if powerset {
        let a = one_event(true, "powerset_no_default"@, 1, 3);
        let b = one_event(true, "powerset_all_features"@, 2, 3);
        assert(within_totals(a));
        assert(within_totals(b));
        lemma_within_totals(pass, a);
        lemma_within_totals(pass + a, pass);
        lemma_within_totals(pass + a + pass, b);
        lemma_within_totals(pass + a + pass + b, pass);
        assert((pass + a + pass + b + pass).last() == pass.last());
    }
}

/// A pass over changed files tells of each file, then of each analyzer, with how
/// many came before, and then of the checks that were asked for.
pub proof fn passes_tell_of_every_step(
    files: Seq<Seq<char>>,
    semver: bool,
    analyzer: bool,
    expand: bool,
    i: int,
)
    requires
        files.len() > 0,
    ensures
        ({
            let e = pass_events(files, semver, analyzer, expand);
            let n = files.len() as int;
            let a = if semver {
                1int
            } else {
                0int
            };
            let b = if analyzer {
                1int
            } else {
                0int
            };
            let c = if expand {
                1int
            } else {
                0int
            };
            &&& e.len() == n + 6 + a + b + c + 1
            &&& 0 <= i < n ==> e[i].stage == "symbols"@ && e[i].current == i && e[i].total == n
                && e[i].detail == Some(files[i])
            &&& n <= i < n + 6 ==> e[i].stage == "analyzers"@ && e[i].current == i - n
                && e[i].total == 6 && e[i].detail is Some
            &&& semver ==> e[n + 6].stage == "semver_checks"@
            &&& analyzer ==> e[n + 6 + a].stage == "rust_analyzer"@
            &&& expand ==> e[n + 6 + a + b].stage == "macro_expand"@
            &&& i >= n + 6 ==> (i < e.len() ==> e[i].detail is None)
        }),
{
}

/// A run that compares feature sets tells of three passes, with a word between
/// each two; any other run tells of one.
pub proof fn runs_tell_of_each_pass(
    files: Seq<Seq<char>>,
    semver: bool,
    analyzer: bool,
    expand: bool,
)
    ensures
        ({
            let pass = pass_events(files, semver, analyzer, expand);
            let n = pass.len() as int;
            let all = run_events(files, semver, analyzer, expand, true);
            &&& run_events(files, semver, analyzer, expand, false) == pass
            &&& all.len() == 3 * n + 2
            &&& all.take(n) == pass
            &&& all[n].stage == "powerset_no_default"@
            &&& all.subrange(n + 1, 2 * n + 1) == pass
            &&& all[2 * n + 1].stage == "powerset_all_features"@
            &&& all.skip(2 * n + 2) == pass
        }),
{
    let pass = pass_events(files, semver, analyzer, expand);
    let n = pass.len() as int;
    let all = run_events(files, semver, analyzer, expand, true);
    assert(all.take(n) =~= pass);
    assert(all.subrange(n + 1, 2 * n + 1) =~= pass);
    assert(all.skip(2 * n + 2) =~= pass);
}

} // verus!
