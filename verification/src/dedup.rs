//! Removal of findings that another finding makes redundant.
use crate::finding::{
    finding_views, kind_path, Finding, FindingKind, FindingView, KindView, Tier,
};
use crate::order::{lemma_filter_map, retain_marked};
use crate::paths::{is_same_path, same_path};
use crate::text::{same, texts};
use vstd::prelude::*;

verus! {

/// Whether `f` resolves a reference to `symbol` in `file`.
pub open spec fn proves(f: FindingView, symbol: Seq<char>, file: Seq<char>) -> bool {
    f.tier == Tier::Proven && match f.kind {
        KindView::ResolvedReference { source_symbol, target } => source_symbol == symbol
            && same_path(target.file, file),
        _ => false,
    }
}

/// Whether some finding resolves a reference to `symbol` in `file`.
pub open spec fn proven(s: Seq<FindingView>, symbol: Seq<char>, file: Seq<char>) -> bool {
    exists|i: int| 0 <= i < s.len() && proves(#[trigger] s[i], symbol, file)
}

/// Whether some finding resolves a reference to one of `symbols` in `file`.
pub open spec fn proven_any(s: Seq<FindingView>, symbols: Seq<Seq<char>>, file: Seq<char>) -> bool {
    exists|i: int| 0 <= i < symbols.len() && proven(s, #[trigger] symbols[i], file)
}

/// Whether a syntactic finding is covered by a resolved reference: to one of
/// the symbols a test names, or to the trait of an impl, a derive or a `dyn`
/// type, in the same file.
pub open spec fn shadowed(s: Seq<FindingView>, f: FindingView) -> bool {
    f.tier != Tier::Proven && match kind_path(f.kind) {
        None => false,
        Some(file) => match f.kind {
            KindView::TestReference { matched_symbols, .. } => proven_any(
                s,
                matched_symbols,
                file,
            ),
            KindView::TraitImpl { trait_name, .. } => proven(s, trait_name, file),
            KindView::DerivedTraitImpl { trait_name, .. } => proven(s, trait_name, file),
            KindView::DynDispatch { trait_name, .. } => proven(s, trait_name, file),
            _ => false,
        },
    }
}

/// The findings that no resolved reference covers.
pub open spec fn unshadowed(s: Seq<FindingView>) -> Seq<FindingView> {
    s.filter(|f: FindingView| !shadowed(s, f))
}

fn is_proven(findings: &Vec<Finding>, symbol: &str, file: &str) -> (r: bool)
    ensures
        r == proven(finding_views(findings@), symbol@, file@),
{
    let ghost s = finding_views(findings@);
    let mut i: usize = 0;
    while i < findings.len()
        invariant
            i <= findings@.len(),
            s == finding_views(findings@),
            forall|j: int| 0 <= j < i ==> !proves(#[trigger] s[j], symbol@, file@),
        decreases findings@.len() - i,
    {
        proof {
            assert(s[i as int] == findings@[i as int]@);
        }
        let hit = findings[i].tier == Tier::Proven && match &findings[i].kind {
            FindingKind::ResolvedReference { source_symbol, target } => {
                same(source_symbol.as_str(), symbol) && is_same_path(target.file.as_str(), file)
            },
            _ => false,
        };
        if hit {
            proof {
                assert(proves(s[i as int], symbol@, file@));
            }
            return true;
        }
        i = i + 1;
    }
    false
}

fn any_proven(findings: &Vec<Finding>, symbols: &Vec<String>, file: &str) -> (r: bool)
    ensures
        r == proven_any(finding_views(findings@), texts(symbols@), file@),
{
    let ghost s = finding_views(findings@);
    let ghost t = texts(symbols@);
    let mut i: usize = 0;
    while i < symbols.len()
        invariant
            i <= symbols@.len(),
            s == finding_views(findings@),
            t == texts(symbols@),
            forall|j: int| 0 <= j < i ==> !proven(s, #[trigger] t[j], file@),
        decreases symbols@.len() - i,
    {
        proof {
            assert(t[i as int] == symbols@[i as int]@);
        }
        if is_proven(findings, symbols[i].as_str(), file) {
            proof {
                assert(proven(s, t[i as int], file@));
            }
            return true;
        }
        i = i + 1;
    }
    false
}

fn is_shadowed(findings: &Vec<Finding>, f: &Finding) -> (r: bool)
    ensures
        r == shadowed(finding_views(findings@), f@),
{
    if f.tier == Tier::Proven {
        return false;
    }
    let file = match f.primary_path() {
        Some(p) => p,
        None => {
            return false;
        },
    };
    match &f.kind {
        FindingKind::TestReference { matched_symbols, .. } => any_proven(
            findings,
            matched_symbols,
            file,
        ),
        FindingKind::TraitImpl { trait_name, .. } => is_proven(findings, trait_name.as_str(), file),
        FindingKind::DerivedTraitImpl { trait_name, .. } => is_proven(
            findings,
            trait_name.as_str(),
            file,
        ),
        FindingKind::DynDispatch { trait_name, .. } => is_proven(
            findings,
            trait_name.as_str(),
            file,
        ),
        _ => false,
    }
}

/// Drops the syntactic findings that a resolved reference covers.
pub fn dedup_syn_under_proven(findings: &mut Vec<Finding>)
    ensures
        finding_views(final(findings)@) == unshadowed(finding_views(old(findings)@)),
{
    let ghost s = finding_views(findings@);
    let mut keep: Vec<bool> = Vec::new();
    let mut i: usize = 0;
    while i < findings.len()
        invariant
            i <= findings@.len(),
            *findings == *old(findings),
            s == finding_views(findings@),
            keep@.len() == i,
            forall|j: int| 0 <= j < i ==> #[trigger] keep@[j] == !shadowed(s, findings@[j]@),
        decreases findings@.len() - i,
    {
        keep.push(!is_shadowed(findings, &findings[i]));
        i = i + 1;
    }
    let mut all: Vec<Finding> = Vec::new();
    std::mem::swap(findings, &mut all);
    let ghost p = |f: Finding| !shadowed(s, f@);
    let ghost held = all@;
    *findings = retain_marked(all, &keep, Ghost(p));
    proof {
        let f = |f: Finding| f@;
        let q = |v: FindingView| !shadowed(s, v);
        lemma_filter_map(held, p, f, q);
    }
}

/// The path that stands for code which macro expansion made.
pub open spec fn expanded_path() -> Seq<char> {
    "<expanded>"@
}

/// Whether `f` is a test reference from source that was not expanded.
pub open spec fn is_raw_test(f: FindingView, test: Seq<char>) -> bool {
    match f.kind {
        KindView::TestReference { test: t, .. } => t.symbol == test && t.file != expanded_path(),
        _ => false,
    }
}

/// Whether `f` is a test reference from expanded code whose test is also
/// referenced from raw source.
pub open spec fn covered_by_raw(s: Seq<FindingView>, f: FindingView) -> bool {
    match f.kind {
        KindView::TestReference { test, .. } => test.file == expanded_path() && exists|i: int|
            0 <= i < s.len() && is_raw_test(#[trigger] s[i], test.symbol),
        _ => false,
    }
}

/// The findings without the expanded test references that raw source covers.
pub open spec fn without_covered(s: Seq<FindingView>) -> Seq<FindingView> {
    s.filter(|f: FindingView| !covered_by_raw(s, f))
}

fn has_raw_test(findings: &Vec<Finding>, test: &str) -> (r: bool)
    ensures
        r == exists|i: int|
            0 <= i < findings@.len() && is_raw_test(
                #[trigger] finding_views(findings@)[i],
                test@,
            ),
{
    let ghost s = finding_views(findings@);
    let mut i: usize = 0;
    while i < findings.len()
        invariant
            i <= findings@.len(),
            s == finding_views(findings@),
            forall|j: int| 0 <= j < i ==> !is_raw_test(#[trigger] s[j], test@),
        decreases findings@.len() - i,
    {
        proof {
            assert(s[i as int] == findings@[i as int]@);
        }
        let hit = match &findings[i].kind {
            FindingKind::TestReference { test: t, .. } => {
                same(t.symbol.as_str(), test) && !same(t.file.as_str(), "<expanded>")
            },
            _ => false,
        };
        if hit {
            proof {
                assert(is_raw_test(s[i as int], test@));
            }
            return true;
        }
        i = i + 1;
    }
    false
}

/// Drops the expanded test references whose test is also referenced from raw
/// source.
pub fn dedup_expanded_under_raw(findings: &mut Vec<Finding>)
    ensures
        finding_views(final(findings)@) == without_covered(finding_views(old(findings)@)),
{
    let ghost s = finding_views(findings@);
    let mut keep: Vec<bool> = Vec::new();
    let mut i: usize = 0;
    while i < findings.len()
        invariant
            i <= findings@.len(),
            *findings == *old(findings),
            s == finding_views(findings@),
            keep@.len() == i,
            forall|j: int| 0 <= j < i ==> #[trigger] keep@[j] == !covered_by_raw(s, findings@[j]@),
        decreases findings@.len() - i,
    {
        let covered = match &findings[i].kind {
            FindingKind::TestReference { test, .. } => {
                same(test.file.as_str(), "<expanded>") && has_raw_test(
                    findings,
                    test.symbol.as_str(),
                )
            },
            _ => false,
        };
        keep.push(!covered);
        i = i + 1;
    }
    let mut all: Vec<Finding> = Vec::new();
    std::mem::swap(findings, &mut all);
    let ghost p = |f: Finding| !covered_by_raw(s, f@);
    let ghost held = all@;
    *findings = retain_marked(all, &keep, Ghost(p));
    proof {
        let f = |f: Finding| f@;
        let q = |v: FindingView| !covered_by_raw(s, v);
        lemma_filter_map(held, p, f, q);
    }
}

// ---------------------------------------------------------------------------
// Laws
// ---------------------------------------------------------------------------

/// No proven finding is ever dropped.
pub proof fn proven_findings_stay(s: Seq<FindingView>, i: int)
    requires
        0 <= i < s.len(),
        s[i].tier == Tier::Proven,
    ensures
        unshadowed(s).contains(s[i]),
{
    let p = |f: FindingView| !shadowed(s, f);
    s.lemma_filter_contains(p, i);
    assert(s.filter(p).contains(s[i]));
}

/// Without a proven finding nothing is dropped.
pub proof fn nothing_is_dropped_without_proof(s: Seq<FindingView>)
    requires
        forall|i: int| 0 <= i < s.len() ==> (#[trigger] s[i]).tier != Tier::Proven,
    ensures
        unshadowed(s) == s,
{
    let p = |f: FindingView| !shadowed(s, f);
    assert forall|i: int| 0 <= i < s.len() implies p(#[trigger] s[i]) by {
        assert forall|symbol: Seq<char>, file: Seq<char>| !#[trigger] proven(s, symbol, file) by {
            if proven(s, symbol, file) {
                let k = choose|k: int| 0 <= k < s.len() && proves(#[trigger] s[k], symbol, file);
                assert(s[k].tier != Tier::Proven);
            }
        }
    }
    lemma_filter_all(s, p);
}

/// A filter that every element passes keeps everything.
pub proof fn lemma_filter_all<T>(s: Seq<T>, p: spec_fn(T) -> bool)
    requires
        forall|i: int| 0 <= i < s.len() ==> p(#[trigger] s[i]),
    ensures
        s.filter(p) == s,
    decreases s.len(),
{
    reveal(Seq::filter);
    if s.len() > 0 {
        let head = s.drop_last();
        assert forall|i: int| 0 <= i < head.len() implies p(#[trigger] head[i]) by {
            assert(p(s[i]));
        }
        lemma_filter_all(head, p);
        assert(p(s[s.len() - 1]));
        assert(head.push(s.last()) =~= s);
    } else {
        assert(s.filter(p) =~= s);
    }
}

/// Dropping covered findings a second time drops nothing.
pub proof fn dropping_covered_is_idempotent(s: Seq<FindingView>)
    ensures
        without_covered(without_covered(s)) == without_covered(s),
{
    let p = |f: FindingView| !covered_by_raw(s, f);
    let r = without_covered(s);
    let q = |f: FindingView| !covered_by_raw(r, f);
    assert forall|i: int| 0 <= i < r.len() implies q(#[trigger] r[i]) by {
        s.lemma_filter_pred(p, i);
        assert(p(r[i]));
        if covered_by_raw(r, r[i]) {
            let test = r[i].kind->TestReference_test;
            let k = choose|k: int| 0 <= k < r.len() && is_raw_test(#[trigger] r[k], test.symbol);
            lemma_filter_sub(s, p, k);
            let m = choose|m: int| 0 <= m < s.len() && s[m] == r[k];
            assert(is_raw_test(s[m], test.symbol));
        }
    }
    lemma_filter_all(r, q);
}

/// Dropping shadowed findings a second time drops nothing.
pub proof fn dropping_shadowed_is_idempotent(s: Seq<FindingView>)
    ensures
        unshadowed(unshadowed(s)) == unshadowed(s),
{
    let p = |f: FindingView| !shadowed(s, f);
    let r = unshadowed(s);
    let q = |f: FindingView| !shadowed(r, f);
    assert forall|symbol: Seq<char>, file: Seq<char>| #[trigger]
        proven(r, symbol, file) implies proven(s, symbol, file) by {
        let k = choose|k: int| 0 <= k < r.len() && proves(#[trigger] r[k], symbol, file);
        lemma_filter_sub(s, p, k);
        let m = choose|m: int| 0 <= m < s.len() && s[m] == r[k];
        assert(proves(s[m], symbol, file));
    }
    assert forall|i: int| 0 <= i < r.len() implies q(#[trigger] r[i]) by {
        s.lemma_filter_pred(p, i);
        assert(p(r[i]));
    }
    lemma_filter_all(r, q);
}

/// A kept element comes from the list.
proof fn lemma_filter_sub<T>(s: Seq<T>, p: spec_fn(T) -> bool, k: int)
    requires
        0 <= k < s.filter(p).len(),
    ensures
        exists|m: int| 0 <= m < s.len() && s[m] == s.filter(p)[k],
    decreases s.len(),
{
    reveal(Seq::filter);
    if s.len() > 0 {
        let head = s.drop_last();
        if k < head.filter(p).len() {
            lemma_filter_sub(head, p, k);
            let m = choose|m: int| 0 <= m < head.len() && head[m] == head.filter(p)[k];
            assert(s[m] == s.filter(p)[k]);
        } else {
            assert(s[s.len() - 1] == s.filter(p)[k]);
        }
    }
}

/// Whether a kind that comes from the look of the source names `symbol`: one of
/// the symbols of a test, or the trait of an impl, a derive or a `dyn` type.
pub open spec fn names_symbol(k: KindView, symbol: Seq<char>) -> bool {
    match k {
        KindView::TestReference { matched_symbols, .. } => matched_symbols.contains(symbol),
        KindView::TraitImpl { trait_name, .. } => trait_name == symbol,
        KindView::DerivedTraitImpl { trait_name, .. } => trait_name == symbol,
        KindView::DynDispatch { trait_name, .. } => trait_name == symbol,
        _ => false,
    }
}

/// Whether a proven finding `g` resolves a reference to a symbol that `f` names,
/// in the file of `f`.
pub open spec fn resolves(g: FindingView, f: FindingView) -> bool {
    &&& g.tier is Proven
    &&& g.kind matches KindView::ResolvedReference { source_symbol, target } && names_symbol(
        f.kind,
        source_symbol,
    ) && (kind_path(f.kind) matches Some(file) && same_path(target.file, file))
}

/// Just the findings that are not proven, and of which a proven one resolves a
/// symbol in the same file, are dropped; the others keep their order.
pub proof fn resolved_references_replace_guesses(s: Seq<FindingView>)
    ensures
        unshadowed(s) == s.filter(
            |f: FindingView|
                f.tier is Proven || !exists|i: int|
                    0 <= i < s.len() && resolves(#[trigger] s[i], f),
        ),
{
    let p = |f: FindingView| !shadowed(s, f);
    let q = |f: FindingView|
        f.tier is Proven || !exists|i: int| 0 <= i < s.len() && resolves(#[trigger] s[i], f);
    assert forall|f: FindingView| #[trigger] p(f) == q(f) by {
        lemma_shadowed(s, f);
    }
    assert(p =~= q);
}

proof fn lemma_shadowed(s: Seq<FindingView>, f: FindingView)
    ensures
        shadowed(s, f) <==> !(f.tier is Proven) && exists|i: int|
            0 <= i < s.len() && resolves(#[trigger] s[i], f),
{
    if exists|i: int| 0 <= i < s.len() && resolves(#[trigger] s[i], f) {
        let i = choose|i: int| 0 <= i < s.len() && resolves(#[trigger] s[i], f);
        let symbol = s[i].kind->ResolvedReference_source_symbol;
        let file = kind_path(f.kind)->0;
        assert(proves(s[i], symbol, file));
        assert(proven(s, symbol, file));
        if let KindView::TestReference { matched_symbols, .. } = f.kind {
            let k = matched_symbols.index_of(symbol);
            assert(proven(s, matched_symbols[k], file));
        }
    }
    if shadowed(s, f) {
        let file = kind_path(f.kind)->0;
        let symbol = match f.kind {
            KindView::TestReference { matched_symbols, .. } => {
                let k = choose|k: int|
                    0 <= k < matched_symbols.len() && proven(s, #[trigger] matched_symbols[k], file);
                matched_symbols[k]
            },
            KindView::TraitImpl { trait_name, .. } => trait_name,
            KindView::DerivedTraitImpl { trait_name, .. } => trait_name,
            KindView::DynDispatch { trait_name, .. } => trait_name,
            _ => Seq::empty(),
        };
        assert(proven(s, symbol, file));
        let i = choose|i: int| 0 <= i < s.len() && proves(#[trigger] s[i], symbol, file);
        assert(resolves(s[i], f));
    }
}

/// Whether `f` is a reference from a test called `test` in `file`.
pub open spec fn is_test_in(f: FindingView, test: Seq<char>, file: Seq<char>) -> bool {
    f.kind matches KindView::TestReference { test: t, .. } && t.symbol == test && t.file == file
}

/// Just the references from expanded tests that some source file holds too are
/// dropped; the others keep their order.
pub proof fn source_tests_replace_expanded_ones(s: Seq<FindingView>)
    ensures
        without_covered(s) == s.filter(
            |f: FindingView|
                !exists|test: Seq<char>, file: Seq<char>, i: int|
                    is_test_in(f, test, "<expanded>"@) && 0 <= i < s.len() && #[trigger] is_test_in(
                        s[i],
                        test,
                        file,
                    ) && file != "<expanded>"@,
        ),
{
    let p = |f: FindingView| !covered_by_raw(s, f);
    let q = |f: FindingView|
        !exists|test: Seq<char>, file: Seq<char>, i: int|
            is_test_in(f, test, "<expanded>"@) && 0 <= i < s.len() && #[trigger] is_test_in(
                s[i],
                test,
                file,
            ) && file != "<expanded>"@;
    assert forall|f: FindingView| #[trigger] p(f) == q(f) by {
        if covered_by_raw(s, f) {
            let test = f.kind->TestReference_test.symbol;
            let i = choose|i: int| 0 <= i < s.len() && is_raw_test(#[trigger] s[i], test);
            let file = s[i].kind->TestReference_test.file;
            assert(is_test_in(f, test, "<expanded>"@));
            assert(is_test_in(s[i], test, file));
        }
        if !q(f) {
            let (test, file, i) = choose|test: Seq<char>, file: Seq<char>, i: int|
                is_test_in(f, test, "<expanded>"@) && 0 <= i < s.len() && #[trigger] is_test_in(
                    s[i],
                    test,
                    file,
                ) && file != "<expanded>"@;
            assert(is_raw_test(s[i], test));
        }
    }
    assert(p =~= q);
}

} // verus!
