//! Filter expressions for `cargo-nextest`.
use crate::finding::{finding_views, Finding, FindingKind, FindingView};
use crate::text::{join, joined, texts, wrapped};
use vstd::prelude::*;
use vstd::string::*;

verus! {

/// A test that a change affects.
#[derive(Debug, PartialEq, Eq)]
pub struct AffectedTest {
    pub name: String,
    pub file: String,
    pub matched_symbols: Vec<String>,
}

/// The names of tests.
pub open spec fn test_names(s: Seq<AffectedTest>) -> Seq<Seq<char>> {
    s.map_values(|t: AffectedTest| t.name@)
}

/// The filter expression for tests of the given names; empty for no tests.
pub open spec fn expression(names: Seq<Seq<char>>) -> Seq<char> {
    joined(wrapped(names, "test("@, ")"@), " + "@)
}

fn expression_for(names: &Vec<String>) -> (r: String)
    ensures
        r@ == expression(texts(names@)),
{
    let mut parts: Vec<String> = Vec::new();
    let mut i: usize = 0;
    while i < names.len()
        invariant
            i <= names@.len(),
            parts@.len() == i,
            forall|j: int| 0 <= j < i ==> #[trigger] parts@[j]@ == "test("@ + names@[j]@ + ")"@,
        decreases names@.len() - i,
    {
        let mut p = "test(".to_owned();
        p.append(names[i].as_str());
        p.append(")");
        parts.push(p);
        i = i + 1;
    }
    proof {
        assert(texts(parts@) =~= wrapped(texts(names@), "test("@, ")"@));
    }
    join(&parts, " + ")
}

/// The filter expression that matches all given tests, such as
/// `test(auth_login) + test(api_smoke)`; empty for no tests.
pub fn filter_expression(tests: &Vec<AffectedTest>) -> (r: String)
    ensures
        r@ == expression(test_names(tests@)),
{
    let mut names: Vec<String> = Vec::new();
    let mut i: usize = 0;
    while i < tests.len()
        invariant
            i <= tests@.len(),
            names@.len() == i,
            forall|j: int| 0 <= j < i ==> #[trigger] names@[j]@ == tests@[j].name@,
        decreases tests@.len() - i,
    {
        names.push(tests[i].name.clone());
        i = i + 1;
    }
    proof {
        assert(texts(names@) =~= test_names(tests@));
    }
    expression_for(&names)
}

/// The names of the tests among findings.
pub open spec fn referenced_tests(s: Seq<FindingView>) -> Seq<Seq<char>> {
    s.filter(|f: FindingView| f.kind is TestReference).map_values(
        |f: FindingView| f.kind->TestReference_test.symbol,
    )
}

/// The filter expression that matches the tests among findings.
pub fn nextest_filter(findings: &Vec<Finding>) -> (r: String)
    ensures
        r@ == expression(referenced_tests(finding_views(findings@))),
{
    let ghost all = finding_views(findings@);
    let ghost p = |f: FindingView| f.kind is TestReference;
    let ghost g = |f: FindingView| f.kind->TestReference_test.symbol;
    let mut names: Vec<String> = Vec::new();
    let mut i: usize = 0;
    proof {
        assert(all.take(0).filter(p) =~= Seq::empty()) by {
            reveal(Seq::filter);
        }
        assert(texts(names@) =~= all.take(0).filter(p).map_values(g));
    }
    while i < findings.len()
        invariant
            i <= findings@.len(),
            all == finding_views(findings@),
            p == (|f: FindingView| f.kind is TestReference),
            g == (|f: FindingView| f.kind->TestReference_test.symbol),
            texts(names@) == all.take(i as int).filter(p).map_values(g),
        decreases findings@.len() - i,
    {
        proof {
            crate::text::lemma_filter_step(all, p, i as int);
            assert(all[i as int] == findings@[i as int]@);
        }
        match &findings[i].kind {
            FindingKind::TestReference { test, .. } => {
                proof {
                    let before = all.take(i as int).filter(p);
                    assert(texts(names@.push(test.symbol)) =~= texts(names@).push(test.symbol@));
                    assert(before.push(all[i as int]).map_values(g) =~= before.map_values(g).push(
                        test.symbol@,
                    ));
                }
                names.push(test.symbol.clone());
            },
            _ => {},
        }
        i = i + 1;
    }
    proof {
        assert(all.take(findings@.len() as int) =~= all);
    }
    expression_for(&names)
}

/// Findings that report no test give an expression no name.
pub proof fn findings_of_no_test_name_none(s: Seq<FindingView>)
    requires
        forall|i: int| 0 <= i < s.len() ==> !((#[trigger] s[i]).kind is TestReference),
    ensures
        referenced_tests(s).len() == 0,
    decreases s.len(),
{
    reveal(Seq::filter);
    let p = |f: FindingView| f.kind is TestReference;
    if s.len() > 0 {
        assert(s[s.len() - 1] == s.last());
        assert forall|i: int| 0 <= i < s.drop_last().len() implies !((
        #[trigger] s.drop_last()[i]).kind is TestReference) by {
            assert(s.drop_last()[i] == s[i]);
        }
        findings_of_no_test_name_none(s.drop_last());
        assert(s.drop_last().filter(p).len() == referenced_tests(s.drop_last()).len());
    }
}

/// The expression has one term for each name, in order, and joins the terms by
/// `+`.
pub proof fn expressions_have_a_term_for_each_test(
    a: Seq<Seq<char>>,
    b: Seq<Seq<char>>,
    name: Seq<char>,
)
    ensures
        expression(Seq::empty()).len() == 0,
        expression(seq![name]) == "test("@ + name + ")"@,
        a.len() > 0 && b.len() > 0 ==> expression(a + b) == expression(a) + " + "@ + expression(b),
    decreases b.len(),
{
    assert(wrapped(seq![name], "test("@, ")"@) =~= seq!["test("@ + name + ")"@]);
    if a.len() > 0 && b.len() > 0 {
        let s = a + b;
        let w = wrapped(s, "test("@, ")"@);
        assert(w.drop_last() =~= wrapped(s.drop_last(), "test("@, ")"@));
        assert(w.last() == "test("@ + b.last() + ")"@);
        assert(wrapped(b, "test("@, ")"@).last() == w.last());
        assert(wrapped(b, "test("@, ")"@).drop_last() =~= wrapped(b.drop_last(), "test("@, ")"@));
        assert(s.drop_last() =~= a + b.drop_last());
        if b.len() == 1 {
            assert(a + b.drop_last() =~= a);
            assert(wrapped(b, "test("@, ")"@)[0] == w.last());
        } else {
            expressions_have_a_term_for_each_test(a, b.drop_last(), name);
            assert(expression(b) == expression(b.drop_last()) + " + "@ + w.last());
            assert(expression(s) =~= expression(a) + " + "@ + expression(b));
        }
    }
}

/// The tests among findings are found finding by finding, in order.
pub proof fn tests_are_named_in_order(a: Seq<FindingView>, b: Seq<FindingView>, f: FindingView)
    ensures
        referenced_tests(a + b) == referenced_tests(a) + referenced_tests(b),
        f.kind is TestReference ==> referenced_tests(seq![f])
            == seq![f.kind->TestReference_test.symbol],
        !(f.kind is TestReference) ==> referenced_tests(seq![f]).len() == 0,
    decreases b.len(),
{
    reveal(Seq::filter);
    let p = |f: FindingView| f.kind is TestReference;
    let g = |f: FindingView| f.kind->TestReference_test.symbol;
    assert(seq![f].drop_last() =~= Seq::empty());
    assert(Seq::<FindingView>::empty().filter(p) =~= Seq::empty());
    assert(seq![f].last() == f);
    if f.kind is TestReference {
        assert(seq![f].filter(p) =~= seq![f]);
        assert(referenced_tests(seq![f]) =~= seq![f.kind->TestReference_test.symbol]);
    }
    if b.len() > 0 {
        assert((a + b).drop_last() =~= a + b.drop_last());
        assert((a + b).last() == b.last());
        tests_are_named_in_order(a, b.drop_last(), f);
        let before = (a + b).drop_last().filter(p);
        if p(b.last()) {
            assert(before.push(b.last()).map_values(g) =~= before.map_values(g).push(g(b.last())));
            let own = b.drop_last().filter(p);
            assert(own.push(b.last()).map_values(g) =~= own.map_values(g).push(g(b.last())));
        }
        assert(referenced_tests(a + b) =~= referenced_tests(a) + referenced_tests(b));
    } else {
        assert(a + b =~= a);
        assert(b.filter(p) =~= Seq::empty());
        assert(referenced_tests(a + b) =~= referenced_tests(a) + referenced_tests(b));
    }
}

} // verus!
