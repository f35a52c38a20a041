//! One-line summaries of findings and the counts that head a report.
use crate::finding::{
    finding_views, kind_path, tier_count, Finding, FindingKind, FindingView, KindView, SeverityClass, Tier,
    TierSummary,
};
use crate::text::{decimal, decimal_text, holds, join, joined};
use vstd::prelude::*;
use vstd::string::*;

verus! {

/// One-line summary of a finding.
pub open spec fn kind_summary(k: KindView) -> Seq<char> {
    match k {
        KindView::TestReference { test, matched_symbols } => "test `"@ + test.symbol + "` ("@
            + test.file + ") references "@ + joined(matched_symbols, ", "@),
        KindView::TraitImpl { trait_name, impl_for, impl_site } => "impl `"@ + trait_name
            + "` for `"@ + impl_for + "` ("@ + impl_site.file + ")"@,
        KindView::DerivedTraitImpl { trait_name, impl_for, derive_site } => "`#[derive("@
            + trait_name + ")]` on `"@ + impl_for + "` ("@ + derive_site.file + ")"@,
        KindView::DynDispatch { trait_name, site } => "`dyn "@ + trait_name + "` used in "@
            + site.file,
        KindView::DocDriftLink { symbol, doc, line } => "intra-doc link to `"@ + symbol + "` in "@
            + doc.file + ":"@ + decimal(line),
        KindView::DocDriftKeyword { symbol, doc, line } => "`"@ + symbol + "` mentioned in "@
            + doc.file + ":"@ + decimal(line),
        KindView::FfiSignatureChange { symbol, file, change } => "FFI `"@ + symbol + "` "@ + change
            + " in "@ + file,
        KindView::BuildScriptChanged { file } => "`build.rs` changed ("@ + file + ")"@,
        KindView::SemverCheck { level, .. } => "cargo-semver-checks reports `"@ + level
            + "` public-API change"@,
        KindView::ResolvedReference { source_symbol, target } => "resolved reference: `"@
            + source_symbol + "` used by `"@ + target.symbol + "` in "@ + target.file,
        KindView::RuntimeSurface { framework, identifier, site } => framework
            + " runtime surface `"@ + identifier + "` ("@ + site.file + ")"@,
        KindView::TraitDefinitionChange { trait_name, file, method, change } => match method {
            Some(m) => "trait `"@ + trait_name + "`: "@ + change.phrase_spec() + " — `"@ + m
                + "` ("@ + file + ")"@,
            None => "trait `"@ + trait_name + "`: "@ + change.phrase_spec() + " ("@ + file + ")"@,
        },
    }
}

/// One-line summary of a finding, shared by every output format.
pub fn finding_summary(f: &Finding) -> (r: String)
    ensures
        r@ == kind_summary(f@.kind),
{
    match &f.kind {
        FindingKind::TestReference { test, matched_symbols } => {
            let mut s = "test `".to_owned();
            s.append(test.symbol.as_str());
            s.append("` (");
            s.append(test.file.as_str());
            s.append(") references ");
            s.append(join(matched_symbols, ", ").as_str());
            s
        },
        FindingKind::TraitImpl { trait_name, impl_for, impl_site } => {
            let mut s = "impl `".to_owned();
            s.append(trait_name.as_str());
            s.append("` for `");
            s.append(impl_for.as_str());
            s.append("` (");
            s.append(impl_site.file.as_str());
            s.append(")");
            s
        },
        FindingKind::DerivedTraitImpl { trait_name, impl_for, derive_site } => {
            let mut s = "`#[derive(".to_owned();
            s.append(trait_name.as_str());
            s.append(")]` on `");
            s.append(impl_for.as_str());
            s.append("` (");
            s.append(derive_site.file.as_str());
            s.append(")");
            s
        },
        FindingKind::DynDispatch { trait_name, site } => {
            let mut s = "`dyn ".to_owned();
            s.append(trait_name.as_str());
            s.append("` used in ");
            s.append(site.file.as_str());
            s
        },
        FindingKind::DocDriftLink { symbol, doc, line } => {
            let mut s = "intra-doc link to `".to_owned();
            s.append(symbol.as_str());
            s.append("` in ");
            s.append(doc.file.as_str());
            s.append(":");
            s.append(decimal_text(*line as u64).as_str());
            s
        },
        FindingKind::DocDriftKeyword { symbol, doc, line } => {
            let mut s = "`".to_owned();
            s.append(symbol.as_str());
            s.append("` mentioned in ");
            s.append(doc.file.as_str());
            s.append(":");
            s.append(decimal_text(*line as u64).as_str());
            s
        },
        FindingKind::FfiSignatureChange { symbol, file, change } => {
            let mut s = "FFI `".to_owned();
            s.append(symbol.as_str());
            s.append("` ");
            s.append(change);
            s.append(" in ");
            s.append(file.as_str());
            s
        },
        FindingKind::BuildScriptChanged { file } => {
            let mut s = "`build.rs` changed (".to_owned();
            s.append(file.as_str());
            s.append(")");
            s
        },
        FindingKind::SemverCheck { level, .. } => {
            let mut s = "cargo-semver-checks reports `".to_owned();
            s.append(level.as_str());
            s.append("` public-API change");
            s
        },
        FindingKind::ResolvedReference { source_symbol, target } => {
            let mut s = "resolved reference: `".to_owned();
            s.append(source_symbol.as_str());
            s.append("` used by `");
            s.append(target.symbol.as_str());
            s.append("` in ");
            s.append(target.file.as_str());
            s
        },
        FindingKind::RuntimeSurface { framework, identifier, site } => {
            let mut s = framework.clone();
            s.append(" runtime surface `");
            s.append(identifier.as_str());
            s.append("` (");
            s.append(site.file.as_str());
            s.append(")");
            s
        },
        FindingKind::TraitDefinitionChange { trait_name, file, method, change } => {
            let mut s = "trait `".to_owned();
            s.append(trait_name.as_str());
            s.append("`: ");
            s.append(change.phrase());
            match method {
                Some(m) => {
                    s.append(" — `");
                    s.append(m.as_str());
                    s.append("` (");
                },
                None => {
                    s.append(" (");
                },
            }
            s.append(file.as_str());
            s.append(")");
            s
        },
    }
}

/// The findings of one severity, in their order.
pub open spec fn severity_group(s: Seq<FindingView>, sev: SeverityClass) -> Seq<FindingView> {
    s.filter(|f: FindingView| f.severity == sev)
}

/// References to findings as plain data.
pub open spec fn ref_views(s: Seq<&Finding>) -> Seq<FindingView> {
    s.map_values(|f: &Finding| f@)
}

/// The findings of one severity, in their order.
pub fn group_by_severity(findings: &Vec<Finding>, sev: SeverityClass) -> (r: Vec<&Finding>)
    ensures
        ref_views(r@) == severity_group(finding_views(findings@), sev),
        r@.len() <= findings@.len(),
{
    let ghost views = finding_views(findings@);
    let ghost p = |f: FindingView| f.severity == sev;
    let mut out: Vec<&Finding> = Vec::new();
    let mut i: usize = 0;
    proof {
        assert(views.take(0).filter(p) =~= Seq::empty()) by {
            reveal(Seq::filter);
        }
        assert(ref_views(out@) =~= Seq::empty());
    }
    while i < findings.len()
        invariant
            i <= findings@.len(),
            views == finding_views(findings@),
            p == (|f: FindingView| f.severity == sev),
            ref_views(out@) == views.take(i as int).filter(p),
            out@.len() <= i,
        decreases findings@.len() - i,
    {
        proof {
            crate::text::lemma_filter_step(views, p, i as int);
        }
        if findings[i].severity == sev {
            proof {
                assert(ref_views(out@.push(&findings@[i as int])) =~= ref_views(out@).push(
                    findings@[i as int]@,
                ));
            }
            out.push(&findings[i]);
        }
        i = i + 1;
    }
    proof {
        assert(views.take(findings@.len() as int) =~= views);
    }
    out
}

/// Counts that head a report. `by_severity` lists the severities that occur,
/// in the order of their names.
#[derive(Debug, PartialEq, Eq)]
pub struct ReportSummary {
    pub total: usize,
    pub by_severity: Vec<(String, u32)>,
    pub by_tier: TierSummary,
}

/// Number of findings of a severity.
pub open spec fn severity_count(s: Seq<FindingView>, sev: SeverityClass) -> nat {
    severity_group(s, sev).len()
}

/// The severities in the order of their names.
pub open spec fn named_severities() -> Seq<SeverityClass> {
    seq![SeverityClass::High, SeverityClass::Low, SeverityClass::Medium, SeverityClass::Unknown]
}

/// Names and counts of the severities that occur.
pub open spec fn severity_entries(s: Seq<FindingView>) -> Seq<(Seq<char>, nat)> {
    named_severities().filter(|v: SeverityClass| severity_count(s, v) > 0).map_values(
        |v: SeverityClass| (v.slug_spec(), severity_count(s, v)),
    )
}

/// Entries as plain data.
pub open spec fn entry_views(s: Seq<(String, u32)>) -> Seq<(Seq<char>, nat)> {
    s.map_values(|e: (String, u32)| (e.0@, e.1 as nat))
}

/// The filter over the four severities, written out.
proof fn lemma_entries(s: Seq<FindingView>)
    ensures
        severity_entries(s) == entries_upto(s, 4),
{
    let p = |v: SeverityClass| severity_count(s, v) > 0;
    let g = |v: SeverityClass| (v.slug_spec(), severity_count(s, v));
    let n = named_severities();
    assert(n.take(0).filter(p) =~= Seq::empty()) by {
        reveal(Seq::filter);
    }
    assert(entries_upto(s, 0) =~= n.take(0).filter(p).map_values(g));
    crate::text::lemma_filter_step(n, p, 0);
    assert(entries_upto(s, 1) =~= n.take(1).filter(p).map_values(g));
    crate::text::lemma_filter_step(n, p, 1);
    assert(entries_upto(s, 2) =~= n.take(2).filter(p).map_values(g));
    crate::text::lemma_filter_step(n, p, 2);
    assert(entries_upto(s, 3) =~= n.take(3).filter(p).map_values(g));
    crate::text::lemma_filter_step(n, p, 3);
    assert(entries_upto(s, 4) =~= n.take(4).filter(p).map_values(g));
    assert(n.take(4) =~= n);
}

/// Entries of the first `n` severities in the order of their names.
spec fn entries_upto(s: Seq<FindingView>, n: nat) -> Seq<(Seq<char>, nat)>
    decreases n,
{
    if n == 0 {
        Seq::empty()
    } else {
        let rest = entries_upto(s, (n - 1) as nat);
        let v = named_severities()[n - 1];
        if severity_count(s, v) > 0 {
            rest.push((v.slug_spec(), severity_count(s, v)))
        } else {
            rest
        }
    }
}

/// Names and counts as plain data.
pub open spec fn tally_views(s: Seq<(String, usize)>) -> Seq<(Seq<char>, nat)> {
    s.map_values(|e: (String, usize)| (e.0@, e.1 as nat))
}

/// Adds the count of one severity where it occurs.
fn add_entry(out: &mut Vec<(String, usize)>, findings: &Vec<Finding>, sev: SeverityClass)
    ensures
        tally_views(final(out)@) == (if severity_count(finding_views(findings@), sev) > 0 {
            tally_views(old(out)@).push(
                (sev.slug_spec(), severity_count(finding_views(findings@), sev)),
            )
        } else {
            tally_views(old(out)@)
        }),
        forall|i: int|
            0 <= i < old(out)@.len() ==> (#[trigger] final(out)@[i]).1 == old(out)@[i].1,
        forall|i: int|
            old(out)@.len() <= i < final(out)@.len() ==> (#[trigger] final(out)@[i]).1
                <= findings@.len(),
        final(out)@.len() >= old(out)@.len(),
{
    let n = count_severity(findings, sev);
    if n > 0 {
        let name = sev.slug().to_owned();
        let ghost before = out@;
        out.push((name, n));
        proof {
            assert(tally_views(out@) =~= tally_views(before).push((sev.slug_spec(), n as nat)));
        }
    }
}

/// Number of findings of a severity.
pub fn count_severity(findings: &Vec<Finding>, sev: SeverityClass) -> (r: usize)
    ensures
        r == severity_count(finding_views(findings@), sev),
        r <= findings@.len(),
{
    let group = group_by_severity(findings, sev);
    proof {
        assert(ref_views(group@).len() == group@.len());
    }
    group.len()
}

/// Names and counts of the severities that occur.
pub fn tally_severities(findings: &Vec<Finding>) -> (r: Vec<(String, usize)>)
    ensures
        tally_views(r@) == severity_entries(finding_views(findings@)),
        forall|i: int| 0 <= i < r@.len() ==> (#[trigger] r@[i]).1 <= findings@.len(),
{
    let ghost views = finding_views(findings@);
    let mut out: Vec<(String, usize)> = Vec::new();
    proof {
        lemma_entries(views);
        reveal_with_fuel(entries_upto, 5);
        assert(tally_views(out@) =~= entries_upto(views, 0));
    }
    add_entry(&mut out, findings, SeverityClass::High);
    add_entry(&mut out, findings, SeverityClass::Low);
    add_entry(&mut out, findings, SeverityClass::Medium);
    add_entry(&mut out, findings, SeverityClass::Unknown);
    out
}

impl ReportSummary {
    /// Tallies the findings by severity and by tier.
    pub fn build(findings: &Vec<Finding>) -> (r: ReportSummary)
        requires
            findings@.len() <= u32::MAX,
        ensures
            r.total == findings@.len(),
            entry_views(r.by_severity@) == severity_entries(finding_views(findings@)),
            r.by_tier.proven == tier_count(finding_views(findings@), Tier::Proven),
            r.by_tier.likely == tier_count(finding_views(findings@), Tier::Likely),
            r.by_tier.possible == tier_count(finding_views(findings@), Tier::Possible),
            r.by_tier.unknown == tier_count(finding_views(findings@), Tier::Unknown),
    {
        let mut by_severity: Vec<(String, u32)> = Vec::new();
        let tally = tally_severities(findings);
        let mut i: usize = 0;
        while i < tally.len()
            invariant
                i <= tally@.len(),
                findings@.len() <= u32::MAX,
                by_severity@.len() == i,
                forall|j: int| 0 <= j < tally@.len() ==> (#[trigger] tally@[j]).1 <= findings@.len(),
                forall|j: int|
                    0 <= j < i ==> (#[trigger] by_severity@[j]).0@ == tally@[j].0@
                        && by_severity@[j].1 == tally@[j].1,
            decreases tally@.len() - i,
        {
            by_severity.push((tally[i].0.clone(), tally[i].1 as u32));
            i = i + 1;
        }
        proof {
            assert(entry_views(by_severity@) =~= tally_views(tally@));
        }
        ReportSummary {
            total: findings.len(),
            by_severity,
            by_tier: TierSummary::from_findings(findings),
        }
    }
}

/// Every finding falls into exactly one severity.
pub proof fn severities_partition_findings(s: Seq<FindingView>)
    ensures
        severity_count(s, SeverityClass::High) + severity_count(s, SeverityClass::Medium)
            + severity_count(s, SeverityClass::Low) + severity_count(s, SeverityClass::Unknown)
            == s.len(),
    decreases s.len(),
{
    reveal(Seq::filter);
    if s.len() > 0 {
        severities_partition_findings(s.drop_last());
    }
}

/// The line a finding points at, where it carries one.
pub open spec fn kind_line(k: KindView) -> Option<nat> {
    match k {
        KindView::DocDriftLink { line, .. } | KindView::DocDriftKeyword { line, .. } => Some(line),
        _ => None,
    }
}

/// The line a finding points at. Only documentation findings carry one.
pub fn finding_line(f: &Finding) -> (r: Option<u32>)
    ensures
        match r {
            Some(n) => kind_line(f@.kind) == Some(n as nat),
            None => kind_line(f@.kind) is None,
        },
{
    match &f.kind {
        FindingKind::DocDriftLink { line, .. } => Some(*line),
        FindingKind::DocDriftKeyword { line, .. } => Some(*line),
        _ => None,
    }
}

/// The groups of two lists follow each other, and a finding falls into the group
/// of its own severity alone.
pub proof fn groups_keep_their_order(
    a: Seq<FindingView>,
    b: Seq<FindingView>,
    f: FindingView,
    sev: SeverityClass,
)
    ensures
        severity_group(a + b, sev) == severity_group(a, sev) + severity_group(b, sev),
        severity_count(a + b, sev) == severity_count(a, sev) + severity_count(b, sev),
        f.severity == sev ==> severity_group(seq![f], sev) == seq![f],
        f.severity != sev ==> severity_group(seq![f], sev).len() == 0,
    decreases b.len(),
{
    reveal(Seq::filter);
    let p = |f: FindingView| f.severity == sev;
    assert(seq![f].drop_last() =~= Seq::empty());
    assert(Seq::<FindingView>::empty().filter(p) =~= Seq::empty());
    assert(seq![f].last() == f);
    if f.severity == sev {
        assert(seq![f].filter(p) =~= seq![f]);
    }
    if b.len() > 0 {
        assert((a + b).drop_last() =~= a + b.drop_last());
        assert((a + b).last() == b.last());
        groups_keep_their_order(a, b.drop_last(), f, sev);
        assert(severity_group(a + b, sev) =~= severity_group(a, sev) + severity_group(b, sev));
    } else {
        assert(a + b =~= a);
        assert(severity_group(a, sev) + severity_group(b, sev) =~= severity_group(a, sev));
    }
}

/// The tally names just the severities that occur, each with its count.
pub proof fn tallies_count_what_occurs(s: Seq<FindingView>, sev: SeverityClass, n: nat)
    ensures
        severity_entries(s).contains((sev.slug_spec(), n)) <==> n > 0 && severity_count(s, sev)
            == n,
{
    let p = |v: SeverityClass| severity_count(s, v) > 0;
    let g = |v: SeverityClass| (v.slug_spec(), severity_count(s, v));
    let all = named_severities();
    let kept = all.filter(p);
    let e = severity_entries(s);
    assert(all[0] == SeverityClass::High);
    assert(all[1] == SeverityClass::Low);
    assert(all[2] == SeverityClass::Medium);
    assert(all[3] == SeverityClass::Unknown);
    assert(all.contains(sev));
    crate::order::lemma_filter_member(all, p, sev);
    if n > 0 && severity_count(s, sev) == n {
        let k = kept.index_of(sev);
        assert(e[k] == (sev.slug_spec(), n));
    }
    if e.contains((sev.slug_spec(), n)) {
        let k = e.index_of((sev.slug_spec(), n));
        let v = kept[k];
        assert(kept.contains(v));
        crate::order::lemma_filter_member(all, p, v);
        lemma_slugs_are_distinct(v, sev);
    }
}

proof fn lemma_slugs_are_distinct(a: SeverityClass, b: SeverityClass)
    requires
        a.slug_spec() == b.slug_spec(),
    ensures
        a == b,
{
    reveal_strlit("high");
    reveal_strlit("medium");
    reveal_strlit("low");
    reveal_strlit("unknown");
    assert("high"@.len() == 4);
    assert("medium"@.len() == 6);
    assert("low"@.len() == 3);
    assert("unknown"@.len() == 7);
}

/// Just the findings on documentation point at a line: their own.
pub proof fn documentation_findings_have_lines(k: KindView)
    ensures
        kind_line(k) is Some <==> k is DocDriftLink || k is DocDriftKeyword,
        k matches KindView::DocDriftLink { line, .. } ==> kind_line(k) == Some(line),
        k matches KindView::DocDriftKeyword { line, .. } ==> kind_line(k) == Some(line),
{
}

/// The summary of a finding names what it is about, and where.
pub proof fn summaries_name_subject_and_place(k: KindView)
    ensures
        kind_path(k) matches Some(p) ==> holds(kind_summary(k), p),
        kind_line(k) matches Some(n) ==> holds(kind_summary(k), decimal(n)),
        k matches KindView::TestReference { test, matched_symbols } ==> holds(
            kind_summary(k),
            test.symbol,
        ) && forall|i: int|
            0 <= i < matched_symbols.len() ==> holds(kind_summary(k), #[trigger] matched_symbols[i]),
        k matches KindView::TraitImpl { trait_name, impl_for, .. } ==> holds(
            kind_summary(k),
            trait_name,
        ) && holds(kind_summary(k), impl_for),
        k matches KindView::DerivedTraitImpl { trait_name, impl_for, .. } ==> holds(
            kind_summary(k),
            trait_name,
        ) && holds(kind_summary(k), impl_for),
        k matches KindView::DynDispatch { trait_name, .. } ==> holds(kind_summary(k), trait_name),
        k matches KindView::DocDriftLink { symbol, .. } ==> holds(kind_summary(k), symbol),
        k matches KindView::DocDriftKeyword { symbol, .. } ==> holds(kind_summary(k), symbol),
        k matches KindView::FfiSignatureChange { symbol, change, .. } ==> holds(
            kind_summary(k),
            symbol,
        ) && holds(kind_summary(k), change),
        k matches KindView::SemverCheck { level, .. } ==> holds(kind_summary(k), level),
        k matches KindView::ResolvedReference { source_symbol, target } ==> holds(
            kind_summary(k),
            source_symbol,
        ) && holds(kind_summary(k), target.symbol),
        k matches KindView::RuntimeSurface { framework, identifier, .. } ==> holds(
            kind_summary(k),
            framework,
        ) && holds(kind_summary(k), identifier),
        k matches KindView::TraitDefinitionChange { trait_name, method, change, .. } ==> holds(
            kind_summary(k),
            trait_name,
        ) && holds(kind_summary(k), change.phrase_spec()) && (method matches Some(m) ==> holds(
            kind_summary(k),
            m,
        )),
{
    broadcast use crate::text::group_holds;

    if let KindView::TestReference { test, matched_symbols } = k {
        assert forall|i: int| 0 <= i < matched_symbols.len() implies holds(
            kind_summary(k),
            #[trigger] matched_symbols[i],
        ) by {
            crate::text::lemma_holds_joined(matched_symbols, ", "@, i, matched_symbols[i]);
        }
    }
}

} // verus!
