//! The order in which a report lists its findings.
use crate::finding::{finding_views, kind_tag, Finding, FindingView};
use crate::order::{in_order, lemma_sorted_map, sort, sorted, sorting_orders, weak_order};
use crate::text::{
    lemma_text_lt_asymmetric, lemma_text_lt_irreflexive, lemma_text_lt_total,
    lemma_text_lt_transitive, less, same, text_lt,
};
use vstd::prelude::*;

verus! {

/// Whether `a` is listed before `b`: the graver severity first, then the surer
/// tier, then by tag, by evidence and by id.
pub open spec fn listed_before(a: FindingView, b: FindingView) -> bool {
    if a.severity != b.severity {
        a.severity.place_spec() < b.severity.place_spec()
    } else if a.tier != b.tier {
        a.tier.rank_spec() > b.tier.rank_spec()
    } else if kind_tag(a.kind) != kind_tag(b.kind) {
        text_lt(kind_tag(a.kind), kind_tag(b.kind))
    } else if a.evidence != b.evidence {
        text_lt(a.evidence, b.evidence)
    } else {
        text_lt(a.id, b.id)
    }
}

/// The order of a report.
pub open spec fn report_order() -> spec_fn(FindingView, FindingView) -> bool {
    |a: FindingView, b: FindingView| listed_before(a, b)
}

/// Findings in the order of a report.
pub open spec fn ranked(s: Seq<FindingView>) -> Seq<FindingView> {
    sorted(s, report_order())
}

fn listed_first(a: &Finding, b: &Finding) -> (r: bool)
    ensures
        r == listed_before(a@, b@),
{
    if a.severity != b.severity {
        return a.severity.place() < b.severity.place();
    }
    if a.tier != b.tier {
        return a.tier.rank() > b.tier.rank();
    }
    let x = a.kind.tag();
    let y = b.kind.tag();
    if !same(x, y) {
        return less(x, y);
    }
    if !same(a.evidence.as_str(), b.evidence.as_str()) {
        return less(a.evidence.as_str(), b.evidence.as_str());
    }
    less(a.id.as_str(), b.id.as_str())
}

/// Puts findings in the order of a report. Findings that the order does not
/// tell apart keep their places relative to each other.
pub fn rank_findings(findings: Vec<Finding>) -> (r: Vec<Finding>)
    ensures
        finding_views(r@) == ranked(finding_views(findings@)),
{
    let ghost lt = |a: Finding, b: Finding| listed_before(a@, b@);
    let ghost all = findings@;
    let r = sort(findings, listed_first, Ghost(lt));
    proof {
        lemma_sorted_map(all, lt, |f: Finding| f@, report_order());
    }
    r
}

/// The order of a report is a strict weak order, so that sorting by it is well
/// defined.
pub proof fn report_order_is_weak()
    ensures
        weak_order(report_order()),
{
    let lt = report_order();
    assert forall|a: FindingView| !#[trigger] lt(a, a) by {
        lemma_text_lt_irreflexive(a.id);
    }
    assert forall|a: FindingView, b: FindingView| #[trigger] lt(a, b) implies !lt(b, a) by {
        lemma_split(kind_tag(a.kind), kind_tag(b.kind), kind_tag(a.kind));
        lemma_split(a.evidence, b.evidence, a.evidence);
        lemma_split(a.id, b.id, a.id);
    }
    assert forall|a: FindingView, b: FindingView, c: FindingView| #[trigger] lt(a, c) implies
        #[trigger] lt(a, b) || lt(b, c) by {
        lemma_split(kind_tag(a.kind), kind_tag(b.kind), kind_tag(c.kind));
        lemma_split(a.evidence, b.evidence, c.evidence);
        lemma_split(a.id, b.id, c.id);
    }
}

/// A text between two texts in order, or anywhere else, lies behind the first
/// or before the second.
proof fn lemma_split(a: Seq<char>, b: Seq<char>, c: Seq<char>)
    ensures
        text_lt(a, c) ==> text_lt(a, b) || text_lt(b, c),
        text_lt(a, b) && text_lt(b, c) ==> text_lt(a, c),
        a != b ==> text_lt(a, b) || text_lt(b, a),
        b != c ==> text_lt(b, c) || text_lt(c, b),
        a != c ==> text_lt(a, c) || text_lt(c, a),
        !(text_lt(a, b) && text_lt(b, a)),
        !(text_lt(c, b) && text_lt(b, c)),
        !(text_lt(a, c) && text_lt(c, a)),
        !text_lt(a, a),
{
    lemma_text_lt_total(a, b);
    lemma_text_lt_total(b, c);
    lemma_text_lt_total(a, c);
    if text_lt(a, b) {
        lemma_text_lt_asymmetric(a, b);
    }
    if text_lt(b, c) {
        lemma_text_lt_asymmetric(b, c);
    }
    if text_lt(a, c) {
        lemma_text_lt_asymmetric(a, c);
    }
    lemma_text_lt_irreflexive(a);
    if text_lt(a, b) && text_lt(b, c) {
        lemma_text_lt_transitive(a, b, c);
    }
    if text_lt(a, c) && text_lt(c, b) {
        lemma_text_lt_transitive(a, c, b);
    }
}

/// A report lists the same findings as before sorting, and none of a graver
/// severity behind one of a lesser; within a severity, none of a surer tier
/// behind a less sure one.
pub proof fn reports_are_ranked(s: Seq<FindingView>)
    ensures
        ranked(s).to_multiset() == s.to_multiset(),
        ranked(s).len() == s.len(),
        forall|i: int, j: int|
            #![trigger ranked(s)[i], ranked(s)[j]]
            0 <= i < j < s.len() ==> ranked(s)[i].severity.place_spec()
                <= ranked(s)[j].severity.place_spec() && (ranked(s)[i].severity == ranked(
                s,
            )[j].severity ==> ranked(s)[i].tier.rank_spec() >= ranked(s)[j].tier.rank_spec()),
{
    report_order_is_weak();
    sorting_orders(s, report_order());
    let r = ranked(s);
    assert(in_order(r, report_order()));
    assert forall|i: int, j: int|
        #![trigger r[i], r[j]]
        0 <= i < j < s.len() implies r[i].severity.place_spec() <= r[j].severity.place_spec() && (
    r[i].severity == r[j].severity ==> r[i].tier.rank_spec() >= r[j].tier.rank_spec()) by {
        assert(!report_order()(r[j], r[i]));
    }
}

/// Sorting keeps which findings there are.
pub proof fn lemma_ranked_contains(s: Seq<FindingView>, f: FindingView)
    ensures
        ranked(s).contains(f) == s.contains(f),
{
    broadcast use vstd::seq_lib::group_to_multiset_ensures;

    report_order_is_weak();
    sorting_orders(s, report_order());
    assert(s.to_multiset().contains(f) == ranked(s).to_multiset().contains(f));
}

/// Findings of the same severity and tier are listed by their tag, those of one
/// tag by their evidence, and those of one evidence by their id.
pub proof fn equals_are_listed_by_tag_and_evidence(s: Seq<FindingView>, i: int, j: int)
    requires
        0 <= i < j < s.len(),
        ranked(s)[i].severity == ranked(s)[j].severity,
        ranked(s)[i].tier == ranked(s)[j].tier,
    ensures
        ({
            let a = ranked(s)[i];
            let b = ranked(s)[j];
            ||| text_lt(kind_tag(a.kind), kind_tag(b.kind))
            ||| kind_tag(a.kind) == kind_tag(b.kind) && text_lt(a.evidence, b.evidence)
            ||| kind_tag(a.kind) == kind_tag(b.kind) && a.evidence == b.evidence && !text_lt(
                b.id,
                a.id,
            )
        }),
{
    report_order_is_weak();
    sorting_orders(s, report_order());
    let r = ranked(s);
    assert(in_order(r, report_order()));
    assert(!report_order()(r[j], r[i]));
    lemma_text_lt_total(kind_tag(r[i].kind), kind_tag(r[j].kind));
    lemma_text_lt_total(r[i].evidence, r[j].evidence);
}

} // verus!
